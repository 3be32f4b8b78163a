//! The folder that transfers go to, and what is kept of it between two runs.

use vstd::prelude::*;

verus! {

/// The path type of the standard library.
#[verifier::external_type_specification]
#[verifier::external_body]
pub struct ExPathBuf(std::path::PathBuf);

/// `PathBuf::clone` of the standard library: the copy is the same path.
pub assume_specification[ <std::path::PathBuf as Clone>::clone ](path: &std::path::PathBuf) -> (copy:
    std::path::PathBuf)
    ensures
        copy == *path,
;

/// What is kept between two runs.
#[derive(Debug)]
pub struct AppSettings {
    pub download_dir: std::path::PathBuf,
}

/// Why another folder cannot be chosen.
#[derive(Clone, Copy, Debug, PartialEq, Eq, Structural)]
pub enum SettingsError {
    /// The path does not lead to a folder.
    NotAFolder,
    /// There is no place to keep settings in.
    NoSettingsFile,
}

impl SettingsError {
    /// The message for the user.
    pub open spec fn text(self) -> Seq<char> {
        match self {
            SettingsError::NotAFolder => "Seçilen yol bir klasör değil."@,
            SettingsError::NoSettingsFile => "Ayar dosyası konumu bulunamadı."@,
        }
    }

    /// The message for the user.
    pub fn message(&self) -> (text: &'static str)
        ensures
            text@ == self.text(),
    {
        match self {
            SettingsError::NotAFolder => "Seçilen yol bir klasör değil.",
            SettingsError::NoSettingsFile => "Ayar dosyası konumu bulunamadı.",
        }
    }
}

/// The folder after the settings of an earlier run have been read. `exists` says
/// whether the folder in them is still there.
pub open spec fn loaded(
    current: std::path::PathBuf,
    saved: Option<AppSettings>,
    exists: bool,
) -> std::path::PathBuf {
    match saved {
        Some(settings) => if exists {
            settings.download_dir
        } else {
            current
        },
        None => current,
    }
}

/// Takes over the folder of an earlier run, if there was one and it is still there.
pub fn load(current: &mut std::path::PathBuf, saved: Option<AppSettings>, exists: bool)
    ensures
        *final(current) == loaded(*old(current), saved, exists),
{
    match saved {
        Some(settings) => {
            if exists {
                *current = settings.download_dir;
            }
        },
        None => {},
    }
}

/// The folder that transfers go to.
pub fn current_download_dir(current: &std::path::PathBuf) -> (dir: std::path::PathBuf)
    ensures
        dir == *current,
{
    current.clone()
}

/// Chooses another folder, and gives what is to be kept of it. `is_dir` says whether
/// the path leads to a folder, `has_file` whether there is a place to keep settings
/// in. The choice takes effect at once, even where it cannot be kept.
pub fn set_download_dir(
    current: &mut std::path::PathBuf,
    new_dir: std::path::PathBuf,
    is_dir: bool,
    has_file: bool,
) -> (kept: Result<AppSettings, SettingsError>)
    ensures
        *final(current) == if is_dir {
            new_dir
        } else {
            *old(current)
        },
        kept matches Ok(settings) ==> settings.download_dir == new_dir,
        kept is Ok <==> is_dir && has_file,
        kept == Err::<AppSettings, SettingsError>(SettingsError::NotAFolder) <==> !is_dir,
        kept == Err::<AppSettings, SettingsError>(SettingsError::NoSettingsFile) <==> is_dir
            && !has_file,
{
    if !is_dir {
        return Err(SettingsError::NotAFolder);
    }
    *current = new_dir.clone();
    if !has_file {
        return Err(SettingsError::NoSettingsFile);
    }
    Ok(AppSettings { download_dir: new_dir })
}

/// A folder that was chosen and kept is the folder again in the next run, as long as
/// it is there, whatever the folder was before.
pub proof fn a_kept_folder_comes_back(kept: AppSettings, fallback: std::path::PathBuf)
    ensures
        loaded(fallback, Some(kept), true) == kept.download_dir,
        loaded(fallback, Some(kept), false) == fallback,
{
}

/// Where nothing was kept the folder stays what it is, whatever is there.
pub proof fn nothing_kept_changes_nothing(current: std::path::PathBuf, exists: bool)
    ensures
        loaded(current, None, exists) == current,
{
}

/// No two reasons why another folder cannot be chosen read the same.
pub proof fn no_two_settings_errors_read_the_same(a: SettingsError, b: SettingsError)
    requires
        a.text() == b.text(),
    ensures
        a == b,
{
    reveal_strlit("Seçilen yol bir klasör değil.");
    reveal_strlit("Ayar dosyası konumu bulunamadı.");
    assert("Seçilen yol bir klasör değil."@[0] == 'S');
    assert("Ayar dosyası konumu bulunamadı."@[0] == 'A');
}

} // verus!
