//! Vault configuration and the folder paths derived from it.
use vstd::prelude::*;
use crate::paths::{is_absolute, is_single_component, is_single_component_exec, join_path, join_path_exec};
use crate::text::{chars_of, string_of};

verus! {

/// Where the vault lives and how it is laid out. Folder paths are relative
/// to the vault unless absolute.
#[derive(Debug, Clone)]
pub struct Config {
    pub vault_path: String,
    pub daily_folder: String,
    pub people_folder: String,
    pub projects_folder: String,
    pub ledger_path: String,
    pub notifications_enabled: bool,
    pub stale_waiting_days: i64,
}

impl Default for Config {
    fn default() -> (r: Config)
        ensures
            r.vault_path@ == "."@,
            r.daily_folder@ == "Daily Notes"@,
            r.people_folder@ == "People"@,
            r.projects_folder@ == "Projects"@,
            r.ledger_path@ == "Waiting.md"@,
            r.notifications_enabled == false,
            r.stale_waiting_days == 7,
    {
        Config {
            vault_path: string_of(&chars_of(".")),
            daily_folder: string_of(&chars_of("Daily Notes")),
            people_folder: string_of(&chars_of("People")),
            projects_folder: default_projects_folder(),
            ledger_path: string_of(&chars_of("Waiting.md")),
            notifications_enabled: false,
            stale_waiting_days: 7,
        }
    }
}

/// The projects folder that older configuration files leave out.
pub fn default_projects_folder() -> (r: String)
    ensures
        r@ == "Projects"@,
{
    string_of(&chars_of("Projects"))
}

/// A folder path resolved against the vault: absolute paths stay as they are.
pub open spec fn resolve_spec(vault: Seq<char>, p: Seq<char>) -> Seq<char> {
    if is_absolute(p) {
        p
    } else {
        join_path(vault, p)
    }
}

impl Config {
    pub fn resolve_in_vault(&self, path: &str) -> (r: String)
        ensures
            r@ == resolve_spec(self.vault_path@, path@),
    {
        join_path_exec(self.vault_path.as_str(), path)
    }

    pub fn daily_dir(&self) -> (r: String)
        ensures
            r@ == resolve_spec(self.vault_path@, self.daily_folder@),
    {
        self.resolve_in_vault(self.daily_folder.as_str())
    }

    pub fn people_dir(&self) -> (r: String)
        ensures
            r@ == resolve_spec(self.vault_path@, self.people_folder@),
    {
        self.resolve_in_vault(self.people_folder.as_str())
    }

    pub fn projects_dir(&self) -> (r: String)
        ensures
            r@ == resolve_spec(self.vault_path@, self.projects_folder@),
    {
        self.resolve_in_vault(self.projects_folder.as_str())
    }

    pub fn ledger_file(&self) -> (r: String)
        ensures
            r@ == resolve_spec(self.vault_path@, self.ledger_path@),
    {
        self.resolve_in_vault(self.ledger_path.as_str())
    }

    /// The configuration as loading reads it: a daily folder that is the
    /// old default `Daily` becomes `Daily Notes`.
    pub fn upgrade_legacy(self) -> (r: Config)
        ensures
            r.daily_folder@ == (if is_single_component(self.daily_folder@, "Daily"@) {
                "Daily Notes"@
            } else {
                self.daily_folder@
            }),
            r.vault_path == self.vault_path,
            r.people_folder == self.people_folder,
            r.projects_folder == self.projects_folder,
            r.ledger_path == self.ledger_path,
            r.notifications_enabled == self.notifications_enabled,
            r.stale_waiting_days == self.stale_waiting_days,
    {
        let mut c = self;
        if is_single_component_exec(c.daily_folder.as_str(), "Daily") {
            c.daily_folder = string_of(&chars_of("Daily Notes"));
        }
        c
    }
}

} // verus!
