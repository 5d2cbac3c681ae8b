use escom::background::AppBackgroundSource;
use escom::formatting::DEFAULT_TIMESTAMP_FORMAT;
use escom::settings::{
    buffer_limit_options, SaveSchedule, ThemePreference, UiPreferences, DEFAULT_FONT_WEIGHT,
    SETTINGS_SCHEMA_VERSION,
};
use escom::storage::document::{annotate_document, without_byte_order_mark};
use escom::storage::load::{
    after_archive, after_backup, after_defaults, after_legacy, after_legacy_backup,
    after_migration, after_primary, check_schema_version, ArchiveOutcome, FileOutcome, LoadStep,
    SettingsPaths, SettingsSource,
};
use escom::storage::migration::{rollback_plan, storage_plan, NodeKind, StorageOp};
use escom::storage::save::{recovery_plan, save_plan, SaveOp};

#[derive(Clone, Debug, PartialEq)]
enum Entry {
    Absent,
    File(Vec<u8>),
    Directory,
}

#[derive(Clone, Debug, PartialEq)]
struct MemoryDisk {
    directory: Entry,
    migration: Entry,
    window: Entry,
}

fn kind(entry: &Entry) -> NodeKind {
    match entry {
        Entry::Absent => NodeKind::Absent,
        Entry::File(_) => NodeKind::File,
        Entry::Directory => NodeKind::Directory,
    }
}

impl MemoryDisk {
    fn plan(&self) -> Result<Vec<StorageOp>, String> {
        storage_plan(
            kind(&self.directory),
            kind(&self.migration),
            kind(&self.window),
            "ESCOM.migration.tmp",
        )
    }

    fn perform(&mut self, op: StorageOp) {
        match op {
            StorageOp::CreateDirectory => self.directory = Entry::Directory,
            StorageOp::RemoveDirectory => self.directory = Entry::Absent,
            StorageOp::DirectoryToMigration => {
                self.migration = std::mem::replace(&mut self.directory, Entry::Absent);
            }
            StorageOp::MigrationToDirectory => {
                self.directory = std::mem::replace(&mut self.migration, Entry::Absent);
            }
            StorageOp::MigrationToWindow => {
                self.window = std::mem::replace(&mut self.migration, Entry::Absent);
            }
        }
    }

    fn prepare(&mut self) {
        for op in self.plan().unwrap() {
            self.perform(op);
        }
    }
}

fn legacy_disk() -> MemoryDisk {
    MemoryDisk {
        directory: Entry::File(b"legacy window state".to_vec()),
        migration: Entry::Absent,
        window: Entry::Absent,
    }
}

#[test]
fn legacy_eframe_file_is_migrated_into_settings_directory() {
    let mut disk = legacy_disk();
    disk.prepare();
    assert_eq!(disk.directory, Entry::Directory);
    assert_eq!(disk.window, Entry::File(b"legacy window state".to_vec()));
}

#[test]
fn interrupted_migration_is_recovered() {
    let mut disk = MemoryDisk {
        directory: Entry::Absent,
        migration: Entry::File(b"staged window state".to_vec()),
        window: Entry::Absent,
    };
    disk.prepare();
    assert_eq!(disk.directory, Entry::Directory);
    assert_eq!(disk.window, Entry::File(b"staged window state".to_vec()));

    for done in 0..=3 {
        let mut disk = legacy_disk();
        for op in disk.plan().unwrap().into_iter().take(done) {
            disk.perform(op);
        }
        disk.prepare();
        assert_eq!(disk.window, Entry::File(b"legacy window state".to_vec()));
    }
}

#[test]
fn failed_migrations_are_undone() {
    for (done, failed) in [
        (1, StorageOp::CreateDirectory),
        (2, StorageOp::MigrationToWindow),
    ] {
        let mut disk = legacy_disk();
        for op in disk.plan().unwrap().into_iter().take(done) {
            disk.perform(op);
        }
        for op in rollback_plan(true, failed) {
            disk.perform(op);
        }
        assert_eq!(disk, legacy_disk());
    }
    assert!(rollback_plan(false, StorageOp::CreateDirectory).is_empty());
    assert!(rollback_plan(true, StorageOp::DirectoryToMigration).is_empty());
}

#[test]
fn existing_migration_files_are_not_overwritten() {
    let disk = MemoryDisk {
        migration: Entry::Directory,
        ..legacy_disk()
    };
    assert_eq!(
        disk.plan().unwrap_err(),
        "迁移文件 ESCOM.migration.tmp 已存在，请先确认其内容"
    );
    assert_eq!(
        storage_plan(NodeKind::Other, NodeKind::File, NodeKind::Absent, "").unwrap(),
        [StorageOp::CreateDirectory]
    );
    assert!(
        storage_plan(NodeKind::Directory, NodeKind::File, NodeKind::File, "")
            .unwrap()
            .is_empty()
    );
}

#[test]
fn saving_can_be_cut_short_anywhere() {
    for done in 0..=5 {
        let (mut file, mut backup, mut temp) = (Some("old"), Some("older"), None);
        for op in save_plan(true).into_iter().take(done) {
            match op {
                SaveOp::WriteTemp => temp = Some("new"),
                SaveOp::RemoveBackup => backup = None,
                SaveOp::MoveToBackup => backup = file.take(),
                SaveOp::MoveTempIn => file = temp.take(),
                SaveOp::RestoreBackup => file = backup.take(),
            }
        }
        let readable = file.or(backup);
        assert!(readable == Some("old") || readable == Some("new"));
        if done == 5 {
            assert_eq!((file, backup, temp), (Some("new"), None, None));
        }
    }
    assert_eq!(save_plan(false).len(), 4);
    assert_eq!(recovery_plan(SaveOp::MoveTempIn), [SaveOp::RestoreBackup]);
    assert!(recovery_plan(SaveOp::WriteTemp).is_empty());
}

fn paths() -> SettingsPaths {
    SettingsPaths {
        primary: "s.toml".to_owned(),
        backup: "s.toml.bak".to_owned(),
        legacy: "s.json".to_owned(),
        legacy_backup: "s.json.bak".to_owned(),
        archive: "s.json.migrated.bak".to_owned(),
    }
}

fn finished(step: LoadStep) -> (SettingsSource, Option<String>) {
    match step {
        LoadStep::Finish { source, warning } => (source, warning),
        other => panic!("{other:?}"),
    }
}

fn failed(error: &str) -> FileOutcome {
    FileOutcome::Failed(error.to_owned())
}

#[test]
fn readable_settings_are_used_silently() {
    assert_eq!(
        finished(after_primary(FileOutcome::Loaded)),
        (SettingsSource::Primary, None)
    );
}

#[test]
fn damaged_settings_fall_back_with_a_warning() {
    let LoadStep::ReadBackup { primary_error } = after_primary(failed("bad")) else {
        panic!("the backup is next");
    };
    assert_eq!(primary_error.as_deref(), Some("bad"));
    assert_eq!(
        finished(after_backup(&paths(), primary_error, FileOutcome::Loaded)),
        (
            SettingsSource::Backup,
            Some("主配置无法读取，已使用备份 s.toml.bak：bad".to_owned())
        )
    );
    assert_eq!(
        finished(after_backup(&paths(), None, FileOutcome::Loaded)).1,
        Some("主配置无法读取，已使用备份 s.toml.bak：主配置文件不存在".to_owned())
    );
    assert_eq!(
        finished(after_backup(&paths(), Some("bad".to_owned()), failed("worse"))),
        (
            SettingsSource::Defaults,
            Some("配置文件和备份均无法读取：bad；worse".to_owned())
        )
    );
    assert_eq!(
        finished(after_backup(&paths(), None, failed("worse"))).1,
        Some("worse".to_owned())
    );
    assert_eq!(
        finished(after_backup(
            &paths(),
            Some("bad".to_owned()),
            FileOutcome::Missing
        ))
        .1,
        Some("bad".to_owned())
    );
}

#[test]
fn earlier_settings_are_migrated_and_archived() {
    assert!(matches!(
        after_backup(&paths(), None, FileOutcome::Missing),
        LoadStep::ReadLegacy
    ));
    let LoadStep::SaveMigrated { source } = after_legacy(&paths(), FileOutcome::Loaded) else {
        panic!("migration is next");
    };
    assert_eq!(source, SettingsSource::Legacy);
    assert!(matches!(
        after_migration(&paths(), source, Ok(())),
        LoadStep::ArchiveLegacy {
            source: SettingsSource::Legacy
        }
    ));
    assert_eq!(
        finished(after_archive(&paths(), source, ArchiveOutcome::Done)),
        (SettingsSource::Legacy, None)
    );
    assert_eq!(
        finished(after_archive(&paths(), source, ArchiveOutcome::Exists)).1,
        Some("TOML 配置已创建，但旧版配置未归档：s.json.migrated.bak 已存在".to_owned())
    );
    assert_eq!(
        finished(after_archive(
            &paths(),
            source,
            ArchiveOutcome::Failed("no".to_owned())
        ))
        .1,
        Some("TOML 配置已创建，但无法将旧版配置归档到 s.json.migrated.bak：no".to_owned())
    );
    assert_eq!(
        finished(after_migration(&paths(), source, Err("full".to_owned()))),
        (
            SettingsSource::Legacy,
            Some("已读取旧版 JSON 配置，但无法写入 s.toml：full".to_owned())
        )
    );
}

#[test]
fn damaged_earlier_settings_are_reported_together() {
    let LoadStep::ReadLegacyBackup { legacy_error } = after_legacy(&paths(), failed("a")) else {
        panic!("the old backup is next");
    };
    assert_eq!(legacy_error.as_deref(), Some("s.json：a"));
    assert_eq!(
        finished(after_legacy_backup(&paths(), legacy_error, failed("b"))),
        (
            SettingsSource::Defaults,
            Some("旧版 JSON 配置无法读取：s.json：a；s.json.bak：b".to_owned())
        )
    );
    assert_eq!(
        finished(after_legacy_backup(
            &paths(),
            Some("x".to_owned()),
            FileOutcome::Missing
        ))
        .1,
        Some("旧版 JSON 配置无法读取：x".to_owned())
    );
    assert_eq!(
        finished(after_legacy_backup(&paths(), None, failed("b"))).1,
        Some("旧版 JSON 配置无法读取：s.json.bak：b".to_owned())
    );
    assert!(matches!(
        after_legacy_backup(&paths(), None, FileOutcome::Loaded),
        LoadStep::SaveMigrated {
            source: SettingsSource::LegacyBackup
        }
    ));
    assert!(matches!(
        after_legacy_backup(&paths(), None, FileOutcome::Missing),
        LoadStep::SaveDefaults
    ));
    assert_eq!(
        finished(after_defaults(&paths(), Ok(()))),
        (SettingsSource::Defaults, None)
    );
    assert_eq!(
        finished(after_defaults(&paths(), Err("full".to_owned()))).1,
        Some("无法创建默认配置 s.toml：full".to_owned())
    );
}

#[test]
fn only_the_current_schema_is_read() {
    assert!(check_schema_version("p", SETTINGS_SCHEMA_VERSION).is_ok());
    assert_eq!(
        check_schema_version("p", 5).unwrap_err(),
        "不支持配置 p 的 schema_version 5，当前支持版本 6"
    );
}

#[test]
fn documents_are_annotated() {
    assert_eq!(
        annotate_document("a = 1\r\n\n[send]\nmode = \"hex\""),
        "# ESCOM 用户配置\n# 修改后请重启应用；缺失字段会使用默认值。\n\n\
         a = 1\n\n# mode: text 或 hex；line_ending: none、cr、lf 或 crlf\n[send]\nmode = \"hex\"\n"
    );
    assert!(annotate_document("[receive]").ends_with(
        "# buffer_limit_mib: 5、20、100 或 500\n[receive]\n"
    ));
    assert!(annotate_document("x\r").ends_with("\nx\r\n"));
    let sections = annotate_document("[interface]\n[fonts]\n[background]\n[other]\n");
    assert!(sections.contains("# theme: system、light 或 dark\n[interface]\n"));
    assert!(sections.contains("weight 范围 1-1000\n[fonts]\n"));
    assert!(sections.contains("opacity 范围 0.0-1.0\n[background]\n[other]\n"));
    assert_eq!(without_byte_order_mark("\u{feff}x"), "x");
    assert_eq!(without_byte_order_mark("x\u{feff}"), "x\u{feff}");
    assert_eq!(without_byte_order_mark(""), "");
}

#[test]
fn sanitize_restores_supported_limits() {
    let mut preferences = UiPreferences {
        ui_font_weight: 0,
        data_font_weight: 1001,
        repeat_interval_ms: 1,
        buffer_limit_mib: 7,
        ..Default::default()
    };
    preferences.sanitize();
    assert_eq!(preferences.ui_font_weight, DEFAULT_FONT_WEIGHT);
    assert_eq!(preferences.data_font_weight, DEFAULT_FONT_WEIGHT);
    assert_eq!(preferences.repeat_interval_ms, 20);
    assert_eq!(preferences.buffer_limit_mib, 20);
}

#[test]
fn sanitize_leaves_supported_values() {
    let mut preferences = UiPreferences {
        schema_version: 3,
        ui_font_weight: 1000,
        timestamp_format: "%H:%M".to_owned(),
        repeat_interval_ms: 4_000_000,
        buffer_limit_mib: 500,
        theme_preference: ThemePreference::Dark,
        background_source: AppBackgroundSource::Online,
        ..Default::default()
    };
    preferences.sanitize();
    assert_eq!(preferences.schema_version, SETTINGS_SCHEMA_VERSION);
    assert_eq!(preferences.ui_font_weight, 1000);
    assert_eq!(preferences.timestamp_format, "%H:%M");
    assert_eq!(preferences.repeat_interval_ms, 3_600_000);
    assert_eq!(preferences.buffer_limit_bytes(), 500 * 1024 * 1024);
    assert_eq!(preferences.theme_preference, ThemePreference::Dark);
    assert_eq!(preferences.background_source.label(), "在线图片");
    assert_eq!(
        UiPreferences::default().timestamp_format,
        DEFAULT_TIMESTAMP_FORMAT
    );
    assert_eq!(buffer_limit_options(), [5, 20, 100, 500]);
    preferences.buffer_limit_mib = usize::MAX;
    assert_eq!(preferences.buffer_limit_bytes(), usize::MAX);
}

#[test]
fn themes_have_labels() {
    assert_eq!(ThemePreference::System.label(), "跟随系统");
    assert_eq!(ThemePreference::Light.label(), "亮色");
    assert_eq!(ThemePreference::Dark.icon(), "🌙");
    assert_eq!(AppBackgroundSource::Off.label(), "不使用背景");
    assert_eq!(AppBackgroundSource::Local.label(), "本地图片");
}

#[test]
fn preferences_are_saved_after_the_last_change() {
    let mut schedule = SaveSchedule::new();
    assert!(!schedule.is_dirty());
    assert!(!schedule.take_due(10_000));
    schedule.mark_dirty(1_000);
    assert!(!schedule.take_due(1_749));
    schedule.mark_dirty(1_500);
    assert!(!schedule.take_due(2_249));
    assert!(!schedule.take_due(900));
    assert!(schedule.take_due(2_250));
    assert!(!schedule.is_dirty());
}
