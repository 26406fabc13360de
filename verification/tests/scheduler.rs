use rensen::action::{
    parse_action_word, parse_backup_method, parse_help_topic, parse_list_method, scale_bytes,
    sort_dates, Action, ActionType, BackupMethod, ByteUnit, Command, HelpTopic, ListMethod,
    RecordFile,
};
use rensen::config::{GlobalConfig, Host, HostConfig, Settings};
use rensen::logging::Trap;
use rensen::path::FilePath;
use rensen::record::Record;
use rensen::scheduler::{
    is_due, is_valid_schedule, should_run, truncate_to_minute, with_seconds, BackupScheduler,
    BackupTask, TaskQueue,
};

// 2024-06-01 00:00:00 UTC
const MIDNIGHT: u64 = 1_717_200_000;

fn global_paths() -> GlobalConfig {
    GlobalConfig {
        hosts: FilePath::from("/etc/rensen/hosts.yml"),
        backups: FilePath::from("/var/backups"),
        snapshots: FilePath::from("/tmp/out"),
        log: FilePath::from("/var/log/rensen.log"),
    }
}

fn host(name: &str, cron: Option<&str>) -> Host {
    let mut config = HostConfig::from(
        String::from("root"),
        format!("{}.example", name),
        22,
        FilePath::from("/root/.ssh/id_ed25519"),
        FilePath::from("/srv/data"),
        FilePath::from("/var/backups"),
        String::new(),
    );
    config.cron_schedule = cron.map(String::from);
    Host { hostname: name.to_string(), config }
}

fn words(line: &str) -> Vec<String> {
    line.split_whitespace().map(String::from).collect()
}

#[test]
fn task_queue_is_first_in_first_out() {
    let mut queue: TaskQueue<u32> = TaskQueue::new();
    assert!(queue.is_empty());
    assert_eq!(queue.len(), 0);
    assert_eq!(queue.peek(), None);
    assert_eq!(queue.popf(), None);
    queue.pushb(1);
    queue.pushb(2);
    queue.pushb(3);
    assert!(!queue.is_empty());
    assert_eq!(queue.len(), 3);
    assert_eq!(queue.peek(), Some(&1));
    assert_eq!(queue.popf(), Some(1));
    assert_eq!(queue.popf(), Some(2));
    assert_eq!(queue.len(), 1);
    assert_eq!(queue.peek(), Some(&3));
    assert_eq!(queue.popf(), Some(3));
    assert!(queue.is_empty());
}

#[test]
fn minutes() {
    assert_eq!(truncate_to_minute(0), 0);
    assert_eq!(truncate_to_minute(59), 0);
    assert_eq!(truncate_to_minute(60), 60);
    assert_eq!(truncate_to_minute(MIDNIGHT + 42), MIDNIGHT);
    assert_eq!(truncate_to_minute(u64::MAX), u64::MAX - 15);
}

#[test]
fn should_run_at_the_scheduled_minute() {
    assert!(should_run(Some(MIDNIGHT as i64), MIDNIGHT));
    assert!(should_run(Some(MIDNIGHT as i64), MIDNIGHT + 59));
    assert!(!should_run(Some(MIDNIGHT as i64), MIDNIGHT + 60));
    assert!(!should_run(Some(MIDNIGHT as i64 + 60), MIDNIGHT));
    assert!(!should_run(None, MIDNIGHT));
    assert!(!should_run(Some(-60), 0));
    assert!(should_run(Some(0), 30));
}

#[test]
fn five_fields_get_seconds() {
    assert_eq!(with_seconds("0 0 * * *"), "0 0 0 * * *");
    assert_eq!(with_seconds("  */5  *\t* * 1-5 "), "0   */5  *\t* * 1-5 ");
    assert_eq!(with_seconds("0 0 0 * * *"), "0 0 0 * * *");
    assert_eq!(with_seconds("* 0 0 * * * *"), "* 0 0 * * * *");
    assert_eq!(with_seconds("@daily"), "@daily");
    assert_eq!(with_seconds(""), "");
}

#[test]
fn test_cron() {
    let cron_str = "* 0 0 * * * *";
    assert!(is_valid_schedule(cron_str));
    assert!(is_valid_schedule("0 0 * * *"));
    assert!(is_valid_schedule("@hourly"));
    assert!(!is_valid_schedule("every day"));
    assert!(!is_valid_schedule(""));
    assert!(!is_valid_schedule("61 0 * * *"));
}

#[test]
fn due_at_midnight() {
    assert!(is_due("0 0 * * *", MIDNIGHT));
    assert!(is_due("0 0 * * *", MIDNIGHT + 30));
    assert!(!is_due("0 0 * * *", MIDNIGHT + 60));
    assert!(!is_due("0 0 * * *", MIDNIGHT - 1));
    assert!(is_due("* * * * *", MIDNIGHT + 60));
    assert!(is_due("*/5 * * * *", MIDNIGHT + 300));
    assert!(!is_due("*/5 * * * *", MIDNIGHT + 360));
    // a schedule that fires within the minute, not at its start
    assert!(!is_due("30 0 0 * * *", MIDNIGHT));
    assert!(!is_due("no schedule", MIDNIGHT));
    assert!(!is_due("* * * * *", u64::MAX));
    assert!(is_due("* * * * *", 0));
}

#[test]
fn bootstrap_skips_bad_schedules_and_defaults_missing_ones() {
    let settings = Settings::new(vec![
        host("edge", Some("0 0 * * *")),
        host("bad", Some("whenever")),
        host("plain", None),
    ]);
    let (scheduler, notes) = BackupScheduler::from(global_paths(), settings);
    assert_eq!(scheduler.schedules.len(), 2);
    assert_eq!(scheduler.schedules[0].host.hostname, "edge");
    assert_eq!(scheduler.schedules[0].schedule, "0 0 * * *");
    assert_eq!(scheduler.schedules[1].host.hostname, "plain");
    assert_eq!(scheduler.schedules[1].schedule, "0 0 * * *");
    assert_eq!(notes.len(), 2);
    assert!(matches!(notes[0], Trap::Scheduler(_)));
    assert!(matches!(notes[1], Trap::Missing(_)));
    assert_eq!(notes[0].describe(), "Scheduler: Invalid Cron Expression for `bad`");
    assert_eq!(
        notes[1].describe(),
        "Missing: Missing cron_schedule for `plain`: Defaulting to `0 0 * * *`"
    );
    assert!(scheduler.active.is_empty());
    assert_eq!(scheduler.settings.hosts.len(), 3);
}

#[test]
fn scenario_two_hosts_due_in_one_minute() {
    let settings = Settings::new(vec![
        host("edge", Some("0 0 * * *")),
        host("core", Some("0 0 0 * * *")),
        host("later", Some("0 5 * * *")),
    ]);
    let (mut scheduler, _) = BackupScheduler::from(global_paths(), settings);
    let due = scheduler.due_now(MIDNIGHT + 7);
    assert_eq!(due, vec![true, true, false]);
    assert_eq!(scheduler.dispatch(&due), vec![0, 1]);
    assert_eq!(scheduler.active, vec!["edge", "core"]);
    // a tick that finds the tasks still in flight starts nothing
    assert!(scheduler.dispatch(&due).is_empty());
    scheduler.finish(&String::from("edge"));
    assert_eq!(scheduler.active, vec!["core"]);
    assert_eq!(scheduler.dispatch(&due), vec![0]);
    assert_eq!(scheduler.dispatch(&vec![false, false, true]), vec![2]);
}

#[test]
fn scenario_one_host_listed_twice() {
    let settings = Settings::new(vec![
        host("edge", Some("0 0 * * *")),
        host("edge", Some("0 0 * * *")),
        host("core", Some("0 0 * * *")),
    ]);
    let (mut scheduler, _) = BackupScheduler::from(global_paths(), settings);
    let due = scheduler.due_now(MIDNIGHT);
    assert_eq!(due, vec![true, true, true]);
    assert_eq!(scheduler.dispatch(&due), vec![0, 2]);
    assert_eq!(scheduler.active, vec!["edge", "core"]);
    scheduler.finish(&String::from("edge"));
    scheduler.finish(&String::from("core"));
    assert!(scheduler.active.is_empty());
    // the second entry is due alone: it gets the task
    assert_eq!(scheduler.dispatch(&vec![false, true, false]), vec![1]);
}

#[test]
fn backup_task_starts_from_the_current_record() {
    let task = BackupTask { global_config: global_paths(), host: host("edge", None) };
    assert_eq!(task.record_path().to_string(), "/var/backups/edge.example/.records/record.json");
}

#[test]
fn scheduled_run_is_incremental() {
    let task = BackupTask { global_config: global_paths(), host: host("edge", None) };
    let mut record = Record::new();
    record.interval_n = 7;
    let run = task.run_backup_task(record);
    assert!(run.incremental);
    assert!(run.debug);
    assert_eq!(run.record.interval_n, 7);
    assert_eq!(run.host_config.identifier, "edge.example");
    assert_eq!(run.global_config.backups.to_string(), "/var/backups");
    assert!(run.snapshot_root_path.is_none());
    assert!(run.host_root_path.is_none());
    assert!(run.complete_destination.is_none());
}

#[test]
fn run_command_picks_the_method() {
    let g = global_paths();
    let action = Action::parse(&words("run edge full"), &g).unwrap();
    let config = host("edge", None).config;
    let full = action.run_backup(&config, Record::new(), BackupMethod::Full);
    assert!(!full.incremental);
    assert!(full.debug);
    let inc = action.run_backup(&config, Record::new(), BackupMethod::Incremental);
    assert!(inc.incremental);
    assert_eq!(inc.host_config.user, "root");
    assert_eq!(inc.global_config.log.to_string(), "/var/log/rensen.log");
    assert!(inc.snapshot_root_path.is_none());
}

#[test]
fn command_words() {
    assert_eq!(parse_action_word("add"), Some(ActionType::AddHost));
    assert_eq!(parse_action_word("A"), Some(ActionType::AddHost));
    assert_eq!(parse_action_word("DEL"), Some(ActionType::DeleteHost));
    assert_eq!(parse_action_word("d"), Some(ActionType::DeleteHost));
    assert_eq!(parse_action_word("mod"), Some(ActionType::ModifyHost));
    assert_eq!(parse_action_word("l"), Some(ActionType::List));
    assert_eq!(parse_action_word("List"), Some(ActionType::List));
    assert_eq!(parse_action_word("run"), Some(ActionType::RunBackup));
    assert_eq!(parse_action_word("c"), Some(ActionType::Compile));
    assert_eq!(parse_action_word("compile"), Some(ActionType::Compile));
    assert_eq!(parse_action_word("?"), Some(ActionType::Help));
    assert_eq!(parse_action_word("help"), Some(ActionType::Help));
    assert_eq!(parse_action_word("q"), Some(ActionType::Exit));
    assert_eq!(parse_action_word("quit"), Some(ActionType::Exit));
    assert_eq!(parse_action_word("EXIT"), Some(ActionType::Exit));
    assert_eq!(parse_action_word("clear"), Some(ActionType::Clear));
    assert_eq!(parse_action_word("backup"), None);
    assert_eq!(parse_action_word(""), None);
    assert_eq!(parse_backup_method("full"), Some(BackupMethod::Full));
    assert_eq!(parse_backup_method("F"), Some(BackupMethod::Full));
    assert_eq!(parse_backup_method("incremental"), Some(BackupMethod::Incremental));
    assert_eq!(parse_backup_method("Inc"), Some(BackupMethod::Incremental));
    assert_eq!(parse_backup_method("i"), Some(BackupMethod::Incremental));
    assert_eq!(parse_backup_method("fast"), None);
    assert_eq!(parse_list_method("snapshots"), Some(ListMethod::Snapshots));
    assert_eq!(parse_list_method("snap"), Some(ListMethod::Snapshots));
    assert_eq!(parse_list_method("S"), Some(ListMethod::Snapshots));
    assert_eq!(parse_list_method("config"), Some(ListMethod::Config));
    assert_eq!(parse_list_method("conf"), Some(ListMethod::Config));
    assert_eq!(parse_list_method("c"), Some(ListMethod::Config));
    assert_eq!(parse_list_method("all"), None);
}

#[test]
fn actions_check_their_operands() {
    let g = global_paths();
    assert!(Action::parse(&words(""), &g).is_none());
    assert!(Action::parse(&words("backup edge"), &g).is_none());
    let run = Action::parse(&words("run edge inc"), &g).unwrap();
    assert_eq!(run.action_type, ActionType::RunBackup);
    assert_eq!(run.operands, vec!["edge", "inc"]);
    match run.execute() {
        Ok(Command::RunBackup { hostname, method }) => {
            assert_eq!(hostname, "edge");
            assert_eq!(method, BackupMethod::Incremental);
        }
        other => panic!("{:?}", other),
    }
    assert!(matches!(
        Action::parse(&words("run edge"), &g).unwrap().execute(),
        Err(Trap::InvalidInput(_))
    ));
    assert!(matches!(
        Action::parse(&words("run edge now"), &g).unwrap().execute(),
        Err(Trap::InvalidInput(_))
    ));
    assert!(matches!(
        Action::parse(&words("add"), &g).unwrap().execute(),
        Err(Trap::InvalidInput(_))
    ));
    assert!(matches!(
        Action::parse(&words("del a b"), &g).unwrap().execute(),
        Err(Trap::InvalidInput(_))
    ));
    assert!(matches!(
        Action::parse(&words("add edge"), &g).unwrap().execute(),
        Ok(Command::AddHost { .. })
    ));
    assert!(matches!(
        Action::parse(&words("mod edge"), &g).unwrap().execute(),
        Ok(Command::ModifyHost { .. })
    ));
    assert!(matches!(
        Action::parse(&words("compile edge"), &g).unwrap().execute(),
        Ok(Command::Compile { .. })
    ));
    assert!(matches!(Action::parse(&words("list"), &g).unwrap().execute(), Ok(Command::ListHosts)));
    match Action::parse(&words("list edge snap"), &g).unwrap().execute() {
        Ok(Command::List { hostname, what }) => {
            assert_eq!(hostname, "edge");
            assert_eq!(what, ListMethod::Snapshots);
        }
        other => panic!("{:?}", other),
    }
    assert!(matches!(
        Action::parse(&words("list edge"), &g).unwrap().execute(),
        Err(Trap::InvalidInput(_))
    ));
    assert!(matches!(
        Action::parse(&words("list edge files"), &g).unwrap().execute(),
        Err(Trap::InvalidInput(_))
    ));
    match Action::parse(&words("help run"), &g).unwrap().execute() {
        Ok(Command::Help { topic }) => assert_eq!(topic.as_deref(), Some("run")),
        other => panic!("{:?}", other),
    }
    assert!(matches!(
        Action::parse(&words("help"), &g).unwrap().execute(),
        Ok(Command::Help { topic: None })
    ));
    assert!(matches!(Action::parse(&words("q"), &g).unwrap().execute(), Ok(Command::Exit)));
    assert!(matches!(Action::parse(&words("clear"), &g).unwrap().execute(), Ok(Command::Clear)));
}

#[test]
fn actions_find_their_host() {
    let g = global_paths();
    let mut settings = Settings::new(Vec::new());
    settings.add_host(String::from("edge"), host("edge", None).config).unwrap();
    let compile = Action::parse(&words("compile edge"), &g).unwrap();
    assert_eq!(
        compile.compile_snapshot(&settings, "latest").unwrap().to_string(),
        "/var/backups/edge.example/.records/record.json"
    );
    assert_eq!(
        compile.compile_snapshot(&settings, "2024-06-02-00-00-00Z").unwrap().to_string(),
        "/var/backups/edge.example/.records/2024-06-02-00-00-00Z.json"
    );
    let unknown = Action::parse(&words("compile core"), &g).unwrap();
    assert!(matches!(unknown.compile_snapshot(&settings, "latest"), Err(Trap::InvalidInput(_))));
    let many = Action::parse(&words("compile edge core"), &g).unwrap();
    assert!(matches!(many.compile_snapshot(&settings, "latest"), Err(Trap::InvalidInput(_))));
    let run = Action::parse(&words("run edge full"), &g).unwrap();
    let records = run.host_records(&settings).unwrap();
    assert_eq!(records.host_config.identifier, "edge.example");
    assert_eq!(records.records_dir.to_string(), "/var/backups/edge.example/.records");
    assert_eq!(records.record_path.to_string(), "/var/backups/edge.example/.records/record.json");
    let nobody = Action::parse(&words("run core full"), &g).unwrap();
    assert!(matches!(nobody.host_records(&settings), Err(Trap::InvalidInput(_))));
    let bare = Action::parse(&words("list"), &g).unwrap();
    assert!(matches!(bare.host_records(&settings), Err(Trap::InvalidInput(_))));
}

#[test]
fn sizes_are_shown_in_units_of_1024() {
    assert_eq!(scale_bytes(0), (0, ByteUnit::B));
    assert_eq!(scale_bytes(1024), (1024, ByteUnit::B));
    assert_eq!(scale_bytes(1025), (1, ByteUnit::Kib));
    assert_eq!(scale_bytes(900012000), (858, ByteUnit::Mib));
    assert_eq!(scale_bytes(1024 * 1024), (1024, ByteUnit::Kib));
    assert_eq!(scale_bytes(5 * 1024 * 1024 * 1024), (5, ByteUnit::Gib));
    assert_eq!(scale_bytes(3 << 40), (3, ByteUnit::Tib));
    // beyond the units that have a name the unit falls back to the byte
    assert_eq!(scale_bytes(u64::MAX), (15, ByteUnit::B));
    assert_eq!(ByteUnit::from_u32(0), ByteUnit::B);
    assert_eq!(ByteUnit::from_u32(1), ByteUnit::Kib);
    assert_eq!(ByteUnit::from_u32(2), ByteUnit::Mib);
    assert_eq!(ByteUnit::from_u32(3), ByteUnit::Gib);
    assert_eq!(ByteUnit::from_u32(4), ByteUnit::Tib);
    assert_eq!(ByteUnit::from_u32(5), ByteUnit::B);
    assert_eq!(ByteUnit::Mib.name(), "MiB");
    assert_eq!(ByteUnit::B.name(), "bytes");
}

#[test]
fn snapshots_are_listed_oldest_first() {
    let file = |name: &str, modified: u64, size: u64| RecordFile {
        path: FilePath::from(&format!("/var/backups/h/.records/{}", name)),
        modified,
        size,
    };
    let mut dates = vec![file("c.json", 30, 1), file("a.json", 10, 2), file("b.json", 20, 3)];
    sort_dates(&mut dates);
    let order: Vec<u64> = dates.iter().map(|d| d.modified).collect();
    assert_eq!(order, vec![10, 20, 30]);
    let lines = Action::list_snapshots(vec![
        file("2024-06-02-00-00-00Z.json", 200, 900012000),
        file("record.json", 300, 900012000),
        file("2024-06-01-00-00-00Z.json", 100, 15),
        file("2024-06-03-00-00-00Z.json", 300, 2048),
    ]);
    let shown: Vec<(String, u64, ByteUnit)> =
        lines.into_iter().map(|l| (l.name, l.amount, l.unit)).collect();
    assert_eq!(
        shown,
        vec![
            (String::from("2024-06-01-00-00-00Z"), 15, ByteUnit::B),
            (String::from("2024-06-02-00-00-00Z"), 858, ByteUnit::Mib),
            (String::from("2024-06-03-00-00-00Z"), 2, ByteUnit::Kib),
        ]
    );
    assert!(Action::list_snapshots(Vec::new()).is_empty());
}

#[test]
fn help_topics() {
    assert_eq!(parse_help_topic("add"), Some(HelpTopic::Add));
    assert_eq!(parse_help_topic("DEL"), Some(HelpTopic::Del));
    assert_eq!(parse_help_topic("mod"), Some(HelpTopic::Mod));
    assert_eq!(parse_help_topic("Run"), Some(HelpTopic::Run));
    assert_eq!(parse_help_topic("list"), Some(HelpTopic::List));
    assert_eq!(parse_help_topic("compile"), Some(HelpTopic::Compile));
    assert_eq!(parse_help_topic("a"), None);
    assert_eq!(parse_help_topic(""), None);
}
