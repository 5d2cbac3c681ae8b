//! Reading the settings: the file, its backup, or the files of earlier versions.

use vstd::prelude::*;

use crate::chars::{decimal, decimal_text};
use crate::session::optional_text;
use crate::settings::SETTINGS_SCHEMA_VERSION;

verus! {

pub const SETTINGS_FILE_NAME: &'static str = "settings.toml";

pub const LEGACY_SETTINGS_FILE_NAME: &'static str = "settings.json";

pub const WINDOW_STATE_FILE_NAME: &'static str = "window.ron";

/// What came of reading a file.
#[derive(Debug)]
pub enum FileOutcome {
    Missing,
    Loaded,
    Failed(String),
}

/// What came of putting an old file away.
#[derive(Debug)]
pub enum ArchiveOutcome {
    Done,
    /// There is an archive already.
    Exists,
    Failed(String),
}

/// Where the settings come from that are used.
#[derive(Debug, Clone, Copy, PartialEq, Eq, Structural)]
pub enum SettingsSource {
    Defaults,
    Primary,
    Backup,
    Legacy,
    LegacyBackup,
}

/// The paths, as they are told to the user.
#[derive(Debug)]
pub struct SettingsPaths {
    pub primary: String,
    pub backup: String,
    pub legacy: String,
    pub legacy_backup: String,
    pub archive: String,
}

/// What is to be done next.
#[derive(Debug)]
pub enum LoadStep {
    ReadBackup { primary_error: Option<String> },
    ReadLegacy,
    ReadLegacyBackup { legacy_error: Option<String> },
    /// The settings of an earlier version are saved in the new form.
    SaveMigrated { source: SettingsSource },
    ArchiveLegacy { source: SettingsSource },
    SaveDefaults,
    Finish { source: SettingsSource, warning: Option<String> },
}

#[verifier::ext_equal]
pub enum StepView {
    ReadBackup { primary_error: Option<Seq<char>> },
    ReadLegacy,
    ReadLegacyBackup { legacy_error: Option<Seq<char>> },
    SaveMigrated { source: SettingsSource },
    ArchiveLegacy { source: SettingsSource },
    SaveDefaults,
    Finish { source: SettingsSource, warning: Option<Seq<char>> },
}

impl View for LoadStep {
    type V = StepView;

    open spec fn view(&self) -> StepView {
        match self {
            LoadStep::ReadBackup { primary_error } => StepView::ReadBackup {
                primary_error: optional_text(*primary_error),
            },
            LoadStep::ReadLegacy => StepView::ReadLegacy,
            LoadStep::ReadLegacyBackup { legacy_error } => StepView::ReadLegacyBackup {
                legacy_error: optional_text(*legacy_error),
            },
            LoadStep::SaveMigrated { source } => StepView::SaveMigrated { source: *source },
            LoadStep::ArchiveLegacy { source } => StepView::ArchiveLegacy { source: *source },
            LoadStep::SaveDefaults => StepView::SaveDefaults,
            LoadStep::Finish { source, warning } => StepView::Finish {
                source: *source,
                warning: optional_text(*warning),
            },
        }
    }
}

pub open spec fn finished(source: SettingsSource, warning: Option<Seq<char>>) -> StepView {
    StepView::Finish { source, warning }
}

pub open spec fn step_after_primary(outcome: FileOutcome) -> StepView {
    match outcome {
        FileOutcome::Loaded => finished(SettingsSource::Primary, None),
        FileOutcome::Missing => StepView::ReadBackup { primary_error: None },
        FileOutcome::Failed(error) => StepView::ReadBackup { primary_error: Some(error@) },
    }
}

pub open spec fn step_after_backup(
    primary_error: Option<Seq<char>>,
    outcome: FileOutcome,
    backup_path: Seq<char>,
) -> StepView {
    match outcome {
        FileOutcome::Loaded => finished(
            SettingsSource::Backup,
            Some(
                "主配置无法读取，已使用备份 "@ + backup_path + "："@ + match primary_error {
                    Some(error) => error,
                    None => "主配置文件不存在"@,
                },
            ),
        ),
        FileOutcome::Failed(backup_error) => finished(
            SettingsSource::Defaults,
            Some(
                match primary_error {
                    Some(error) => "配置文件和备份均无法读取："@ + error + "；"@ + backup_error@,
                    None => backup_error@,
                },
            ),
        ),
        FileOutcome::Missing => match primary_error {
            Some(error) => finished(SettingsSource::Defaults, Some(error)),
            None => StepView::ReadLegacy,
        },
    }
}

pub open spec fn file_error(path: Seq<char>, error: Seq<char>) -> Seq<char> {
    path + "："@ + error
}

pub open spec fn step_after_legacy(outcome: FileOutcome, path: Seq<char>) -> StepView {
    match outcome {
        FileOutcome::Loaded => StepView::SaveMigrated { source: SettingsSource::Legacy },
        FileOutcome::Missing => StepView::ReadLegacyBackup { legacy_error: None },
        FileOutcome::Failed(error) => StepView::ReadLegacyBackup {
            legacy_error: Some(file_error(path, error@)),
        },
    }
}

pub open spec fn step_after_legacy_backup(
    legacy_error: Option<Seq<char>>,
    outcome: FileOutcome,
    path: Seq<char>,
) -> StepView {
    match outcome {
        FileOutcome::Loaded => StepView::SaveMigrated { source: SettingsSource::LegacyBackup },
        FileOutcome::Missing => match legacy_error {
            Some(error) => finished(
                SettingsSource::Defaults,
                Some("旧版 JSON 配置无法读取："@ + error),
            ),
            None => StepView::SaveDefaults,
        },
        FileOutcome::Failed(error) => finished(
            SettingsSource::Defaults,
            Some(
                match legacy_error {
                    Some(first) => "旧版 JSON 配置无法读取："@ + first + "；"@ + file_error(
                        path,
                        error@,
                    ),
                    None => "旧版 JSON 配置无法读取："@ + file_error(path, error@),
                },
            ),
        ),
    }
}

pub open spec fn step_after_migration(
    source: SettingsSource,
    outcome: Result<(), String>,
    path: Seq<char>,
) -> StepView {
    match outcome {
        Ok(_) => StepView::ArchiveLegacy { source },
        Err(error) => finished(
            source,
            Some("已读取旧版 JSON 配置，但无法写入 "@ + path + "："@ + error@),
        ),
    }
}

pub open spec fn step_after_archive(
    source: SettingsSource,
    outcome: ArchiveOutcome,
    path: Seq<char>,
) -> StepView {
    match outcome {
        ArchiveOutcome::Done => finished(source, None),
        ArchiveOutcome::Exists => finished(
            source,
            Some("TOML 配置已创建，但旧版配置未归档："@ + path + " 已存在"@),
        ),
        ArchiveOutcome::Failed(error) => finished(
            source,
            Some("TOML 配置已创建，但无法将旧版配置归档到 "@ + path + "："@ + error@),
        ),
    }
}

pub open spec fn step_after_defaults(outcome: Result<(), String>, path: Seq<char>) -> StepView {
    match outcome {
        Ok(_) => finished(SettingsSource::Defaults, None),
        Err(error) => finished(
            SettingsSource::Defaults,
            Some("无法创建默认配置 "@ + path + "："@ + error@),
        ),
    }
}

fn message(first: &str, second: &str, third: &str, fourth: &str) -> (text: String)
    ensures
        text@ == first@ + second@ + third@ + fourth@,
{
    let mut text = first.to_owned();
    text.append(second);
    text.append(third);
    text.append(fourth);
    text
}

/// The settings file was read.
pub fn after_primary(outcome: FileOutcome) -> (step: LoadStep)
    ensures
        step@ == step_after_primary(outcome),
{
    match outcome {
        FileOutcome::Loaded => LoadStep::Finish {
            source: SettingsSource::Primary,
            warning: None,
        },
        FileOutcome::Missing => LoadStep::ReadBackup { primary_error: None },
        FileOutcome::Failed(error) => LoadStep::ReadBackup { primary_error: Some(error) },
    }
}

/// The backup was read.
pub fn after_backup(
    paths: &SettingsPaths,
    primary_error: Option<String>,
    outcome: FileOutcome,
) -> (step: LoadStep)
    ensures
        step@ == step_after_backup(optional_text(primary_error), outcome, paths.backup@),
{
    match outcome {
        FileOutcome::Loaded => {
            let reason = match primary_error {
                Some(error) => error,
                None => "主配置文件不存在".to_owned(),
            };
            LoadStep::Finish {
                source: SettingsSource::Backup,
                warning: Some(
                    message(
                        "主配置无法读取，已使用备份 ",
                        paths.backup.as_str(),
                        "：",
                        reason.as_str(),
                    ),
                ),
            }
        },
        FileOutcome::Failed(backup_error) => LoadStep::Finish {
            source: SettingsSource::Defaults,
            warning: Some(
                match primary_error {
                    Some(error) => message(
                        "配置文件和备份均无法读取：",
                        error.as_str(),
                        "；",
                        backup_error.as_str(),
                    ),
                    None => backup_error,
                },
            ),
        },
        FileOutcome::Missing => match primary_error {
            Some(error) => LoadStep::Finish {
                source: SettingsSource::Defaults,
                warning: Some(error),
            },
            None => LoadStep::ReadLegacy,
        },
    }
}

fn file_message(path: &str, error: &str) -> (text: String)
    ensures
        text@ == file_error(path@, error@),
{
    let mut text = path.to_owned();
    text.append("：");
    text.append(error);
    text
}

/// The file of an earlier version was read.
pub fn after_legacy(paths: &SettingsPaths, outcome: FileOutcome) -> (step: LoadStep)
    ensures
        step@ == step_after_legacy(outcome, paths.legacy@),
{
    match outcome {
        FileOutcome::Loaded => LoadStep::SaveMigrated { source: SettingsSource::Legacy },
        FileOutcome::Missing => LoadStep::ReadLegacyBackup { legacy_error: None },
        FileOutcome::Failed(error) => LoadStep::ReadLegacyBackup {
            legacy_error: Some(file_message(paths.legacy.as_str(), error.as_str())),
        },
    }
}

/// The backup of an earlier version was read.
pub fn after_legacy_backup(
    paths: &SettingsPaths,
    legacy_error: Option<String>,
    outcome: FileOutcome,
) -> (step: LoadStep)
    ensures
        step@ == step_after_legacy_backup(
            optional_text(legacy_error),
            outcome,
            paths.legacy_backup@,
        ),
{
    match outcome {
        FileOutcome::Loaded => LoadStep::SaveMigrated { source: SettingsSource::LegacyBackup },
        FileOutcome::Missing => match legacy_error {
            Some(error) => {
                let mut text = "旧版 JSON 配置无法读取：".to_owned();
                text.append(error.as_str());
                LoadStep::Finish { source: SettingsSource::Defaults, warning: Some(text) }
            },
            None => LoadStep::SaveDefaults,
        },
        FileOutcome::Failed(error) => {
            let second = file_message(paths.legacy_backup.as_str(), error.as_str());
            let text = match legacy_error {
                Some(first) => message(
                    "旧版 JSON 配置无法读取：",
                    first.as_str(),
                    "；",
                    second.as_str(),
                ),
                None => {
                    let mut text = "旧版 JSON 配置无法读取：".to_owned();
                    text.append(second.as_str());
                    text
                },
            };
            LoadStep::Finish { source: SettingsSource::Defaults, warning: Some(text) }
        },
    }
}

/// The settings of an earlier version were saved in the new form.
pub fn after_migration(
    paths: &SettingsPaths,
    source: SettingsSource,
    outcome: Result<(), String>,
) -> (step: LoadStep)
    ensures
        step@ == step_after_migration(source, outcome, paths.primary@),
{
    match outcome {
        Ok(_) => LoadStep::ArchiveLegacy { source },
        Err(error) => LoadStep::Finish {
            source,
            warning: Some(
                message(
                    "已读取旧版 JSON 配置，但无法写入 ",
                    paths.primary.as_str(),
                    "：",
                    error.as_str(),
                ),
            ),
        },
    }
}

/// The file of an earlier version was put away.
pub fn after_archive(
    paths: &SettingsPaths,
    source: SettingsSource,
    outcome: ArchiveOutcome,
) -> (step: LoadStep)
    ensures
        step@ == step_after_archive(source, outcome, paths.archive@),
{
    let warning = match outcome {
        ArchiveOutcome::Done => None,
        ArchiveOutcome::Exists => {
            let mut text = "TOML 配置已创建，但旧版配置未归档：".to_owned();
            text.append(paths.archive.as_str());
            text.append(" 已存在");
            Some(text)
        },
        ArchiveOutcome::Failed(error) => Some(
            message(
                "TOML 配置已创建，但无法将旧版配置归档到 ",
                paths.archive.as_str(),
                "：",
                error.as_str(),
            ),
        ),
    };
    LoadStep::Finish { source, warning }
}

/// The usual settings were saved.
pub fn after_defaults(paths: &SettingsPaths, outcome: Result<(), String>) -> (step: LoadStep)
    ensures
        step@ == step_after_defaults(outcome, paths.primary@),
{
    let warning = match outcome {
        Ok(_) => None,
        Err(error) => Some(
            message("无法创建默认配置 ", paths.primary.as_str(), "：", error.as_str()),
        ),
    };
    LoadStep::Finish { source: SettingsSource::Defaults, warning }
}

/// Settings of this version can be read.
pub fn check_schema_version(path: &str, version: u32) -> (result: Result<(), String>)
    ensures
        if version == SETTINGS_SCHEMA_VERSION {
            result is Ok
        } else {
            result matches Err(message) && message@ == "不支持配置 "@ + path@
                + " 的 schema_version "@ + decimal_text(version as nat) + "，当前支持版本 "@
                + decimal_text(SETTINGS_SCHEMA_VERSION as nat)
        },
{
    if version == SETTINGS_SCHEMA_VERSION {
        return Ok(());
    }
    let mut text = "不支持配置 ".to_owned();
    text.append(path);
    text.append(" 的 schema_version ");
    text.append(decimal(version as u64).as_str());
    text.append("，当前支持版本 ");
    text.append(decimal(SETTINGS_SCHEMA_VERSION as u64).as_str());
    Err(text)
}

/// All that the disk answers while settings are loaded.
pub struct LoadWorld {
    pub primary: FileOutcome,
    pub backup: FileOutcome,
    pub legacy: FileOutcome,
    pub legacy_backup: FileOutcome,
    pub migrated: Result<(), String>,
    pub archived: ArchiveOutcome,
    pub defaults: Result<(), String>,
}

/// What is done next, given what the disk answers.
pub open spec fn advanced(step: StepView, world: LoadWorld, paths: SettingsPaths) -> StepView {
    match step {
        StepView::ReadBackup { primary_error } => step_after_backup(
            primary_error,
            world.backup,
            paths.backup@,
        ),
        StepView::ReadLegacy => step_after_legacy(world.legacy, paths.legacy@),
        StepView::ReadLegacyBackup { legacy_error } => step_after_legacy_backup(
            legacy_error,
            world.legacy_backup,
            paths.legacy_backup@,
        ),
        StepView::SaveMigrated { source } => step_after_migration(
            source,
            world.migrated,
            paths.primary@,
        ),
        StepView::ArchiveLegacy { source } => step_after_archive(
            source,
            world.archived,
            paths.archive@,
        ),
        StepView::SaveDefaults => step_after_defaults(world.defaults, paths.primary@),
        StepView::Finish { .. } => step,
    }
}

/// How loading ends.
pub open spec fn loaded(world: LoadWorld, paths: SettingsPaths) -> StepView {
    let a = step_after_primary(world.primary);
    let b = advanced(a, world, paths);
    let c = advanced(b, world, paths);
    let d = advanced(c, world, paths);
    let e = advanced(d, world, paths);
    advanced(e, world, paths)
}

/// The settings that are used: the file wherever it can be read, else its backup, and files of an
/// earlier version only where there is neither. In all other cases the usual settings are used.
pub open spec fn source_of(world: LoadWorld) -> SettingsSource {
    if world.primary is Loaded {
        SettingsSource::Primary
    } else if world.backup is Loaded {
        SettingsSource::Backup
    } else if !(world.primary is Missing && world.backup is Missing) {
        SettingsSource::Defaults
    } else if world.legacy is Loaded {
        SettingsSource::Legacy
    } else if world.legacy_backup is Loaded {
        SettingsSource::LegacyBackup
    } else {
        SettingsSource::Defaults
    }
}

/// Loading always ends. It uses the best file there is, and is silent only where no file that was
/// asked for is damaged and all that had to be written was written.
pub proof fn best_settings_are_used(world: LoadWorld, paths: SettingsPaths)
    ensures
        loaded(world, paths) is Finish,
        loaded(world, paths)->Finish_source == source_of(world),
        loaded(world, paths)->Finish_warning is None ==> world.primary is Loaded || (world.primary
            is Missing && world.backup is Missing && (world.legacy is Loaded && world.migrated
            is Ok && world.archived is Done || world.legacy_backup is Loaded && world.migrated is Ok
            && world.archived is Done || world.legacy is Missing && world.legacy_backup is Missing
            && world.defaults is Ok)),
        world.primary is Loaded ==> loaded(world, paths)->Finish_warning is None,
{
}

/// Whoever uses a backup or the usual settings because a file is damaged is told what is wrong
/// with it; old files that were read are put away, and it is told if that fails.
pub proof fn damaged_files_are_told_of(
    world: LoadWorld,
    paths: SettingsPaths,
    primary: String,
    backup: String,
)
    ensures
        ({
            let end = loaded(world, paths);
            &&& world.primary == FileOutcome::Failed(primary) && world.backup is Loaded
                ==> end->Finish_warning == Some(
                "主配置无法读取，已使用备份 "@ + paths.backup@ + "："@ + primary@,
            )
            &&& world.primary is Missing && world.backup is Loaded ==> end->Finish_warning == Some(
                "主配置无法读取，已使用备份 "@ + paths.backup@ + "："@ + "主配置文件不存在"@,
            )
            &&& world.primary == FileOutcome::Failed(primary) && world.backup is Missing
                ==> end->Finish_warning == Some(primary@)
            &&& world.primary is Missing && world.backup == FileOutcome::Failed(backup)
                ==> end->Finish_warning == Some(backup@)
            &&& world.primary == FileOutcome::Failed(primary) && world.backup
                == FileOutcome::Failed(backup) ==> end->Finish_warning == Some(
                "配置文件和备份均无法读取："@ + primary@ + "；"@ + backup@,
            )
        }),
{
}

/// What is said where files of an earlier version are damaged, cannot be written anew or cannot
/// be put away.
pub proof fn old_files_are_told_of(
    legacy: String,
    backup: String,
    path: Seq<char>,
    error: Seq<char>,
    source: SettingsSource,
)
    ensures
        step_after_legacy(FileOutcome::Failed(legacy), path) == (StepView::ReadLegacyBackup {
            legacy_error: Some(path + "："@ + legacy@),
        }),
        step_after_legacy_backup(Some(error), FileOutcome::Missing, path) == (StepView::Finish {
            source: SettingsSource::Defaults,
            warning: Some("旧版 JSON 配置无法读取："@ + error),
        }),
        step_after_legacy_backup(Some(error), FileOutcome::Failed(backup), path)
            == (StepView::Finish {
            source: SettingsSource::Defaults,
            warning: Some(
                "旧版 JSON 配置无法读取："@ + error + "；"@ + (path + "："@ + backup@),
            ),
        }),
        step_after_legacy_backup(None, FileOutcome::Failed(backup), path) == (StepView::Finish {
            source: SettingsSource::Defaults,
            warning: Some("旧版 JSON 配置无法读取："@ + (path + "："@ + backup@)),
        }),
        step_after_migration(source, Err(backup), path) == (StepView::Finish {
            source,
            warning: Some("已读取旧版 JSON 配置，但无法写入 "@ + path + "："@ + backup@),
        }),
        step_after_archive(source, ArchiveOutcome::Exists, path) == (StepView::Finish {
            source,
            warning: Some("TOML 配置已创建，但旧版配置未归档："@ + path + " 已存在"@),
        }),
        step_after_archive(source, ArchiveOutcome::Failed(backup), path) == (StepView::Finish {
            source,
            warning: Some(
                "TOML 配置已创建，但无法将旧版配置归档到 "@ + path + "："@ + backup@,
            ),
        }),
        step_after_defaults(Err(backup), path) == (StepView::Finish {
            source: SettingsSource::Defaults,
            warning: Some("无法创建默认配置 "@ + path + "："@ + backup@),
        }),
{
}

} // verus!
