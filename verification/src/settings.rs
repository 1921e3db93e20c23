//! The settings records and their defaults.

use vstd::prelude::*;
use vstd::string::*;

verus! {

/// How the application starts and stacks its window.
#[derive(Clone, Copy, Debug, PartialEq, Eq, Structural)]
pub struct Settings {
    pub auto_launch: bool,
    pub always_on_top: bool,
}

impl Default for Settings {
    /// Neither started with the session nor kept above other windows.
    fn default() -> (s: Settings)
        ensures
            s == (Settings { auto_launch: false, always_on_top: false }),
    {
        Settings { auto_launch: false, always_on_top: false }
    }
}

/// Where the window stood and how large it was.
#[derive(Clone, Copy, Debug, PartialEq, Eq, Structural)]
pub struct WindowBounds {
    pub x: Option<i32>,
    pub y: Option<i32>,
    pub width: u32,
    pub height: u32,
}

impl Default for WindowBounds {
    /// 800 by 600, at no remembered position.
    fn default() -> (b: WindowBounds)
        ensures
            b == (WindowBounds { x: None, y: None, width: 800, height: 600 }),
    {
        WindowBounds { x: None, y: None, width: 800, height: 600 }
    }
}

/// How backups are made and how many are kept.
#[derive(Clone, Debug)]
pub struct BackupSettings {
    pub backup_directory: Option<String>,
    pub max_backups: u32,
    pub auto_backup_enabled: bool,
    pub auto_backup_interval: u32,
}

/// The folder under the user's documents that belongs to the application.
pub fn app_folder() -> (name: &'static str)
    ensures
        name@ == "LitePad"@,
{
    "LitePad"
}

/// The folder, inside the application's folder, where backups go unless
/// the user chooses another place.
pub fn backups_folder() -> (name: &'static str)
    ensures
        name@ == "Backups"@,
{
    "Backups"
}

impl BackupSettings {
    /// The settings of a fresh installation: five archives kept, no
    /// automatic backup, an interval of 30, and the given default directory,
    /// if the machine has one.
    pub fn with_default_directory(directory: Option<String>) -> (s: BackupSettings)
        ensures
            s.backup_directory == directory,
            s.max_backups == 5,
            !s.auto_backup_enabled,
            s.auto_backup_interval == 30,
    {
        BackupSettings {
            backup_directory: directory,
            max_backups: 5,
            auto_backup_enabled: false,
            auto_backup_interval: 30,
        }
    }
}

} // verus!
