//! Where exports go: the folder that is chosen for them and the names of
//! their files.

use vstd::prelude::*;
use crate::text::{chars_of, ends_with, has_suffix, lowercase, str_eq, to_lowercase, trimmed};
use crate::topology::settings::{or_text, trim_text};

verus! {

/// The folder that an export is written to.
#[derive(Debug)]
pub enum ExportFolder {
    /// The user's documents.
    Documents,
    /// The user's downloads.
    Downloads,
    /// The user's desktop.
    Desktop,
    /// The user's home.
    Home,
    /// The folder at this path, if there is one.
    Custom(String),
    /// No folder is chosen.
    Unset,
}

/// The mathematical content of an [`ExportFolder`].
pub enum FolderView {
    Documents,
    Downloads,
    Desktop,
    Home,
    Custom(Seq<char>),
    Unset,
}

impl DeepView for ExportFolder {
    type V = FolderView;

    open spec fn deep_view(&self) -> FolderView {
        match self {
            ExportFolder::Documents => FolderView::Documents,
            ExportFolder::Downloads => FolderView::Downloads,
            ExportFolder::Desktop => FolderView::Desktop,
            ExportFolder::Home => FolderView::Home,
            ExportFolder::Custom(path) => FolderView::Custom(path@),
            ExportFolder::Unset => FolderView::Unset,
        }
    }
}

impl View for ExportFolder {
    type V = FolderView;

    open spec fn view(&self) -> FolderView {
        self.deep_view()
    }
}

/// The folder that a preset, given in lower case, stands for. The preset
/// `custom` stands for the path given with it, trimmed, and for no folder
/// where that is empty; a preset that is not known stands for no folder.
pub open spec fn folder_for(preset: Seq<char>, custom_path: Option<Seq<char>>) -> FolderView {
    if preset == "documents"@ {
        FolderView::Documents
    } else if preset == "downloads"@ {
        FolderView::Downloads
    } else if preset == "desktop"@ {
        FolderView::Desktop
    } else if preset == "home"@ {
        FolderView::Home
    } else if preset == "custom"@ && trimmed(or_text(custom_path, Seq::empty())).len() > 0 {
        FolderView::Custom(trimmed(or_text(custom_path, Seq::empty())))
    } else {
        FolderView::Unset
    }
}

/// Picks the folder that a preset, given in lower case, stands for.
pub fn pick_export_folder(preset: &str, custom_path: Option<&str>) -> (r: ExportFolder)
    ensures
        r@ == folder_for(preset@, custom_path.deep_view()),
{
    if str_eq(preset, "documents") {
        ExportFolder::Documents
    } else if str_eq(preset, "downloads") {
        ExportFolder::Downloads
    } else if str_eq(preset, "desktop") {
        ExportFolder::Desktop
    } else if str_eq(preset, "home") {
        ExportFolder::Home
    } else if str_eq(preset, "custom") {
        proof {
            reveal_strlit("");
            assert(""@ =~= Seq::<char>::empty());
        }
        let path = match custom_path {
            Some(path) => trim_text(path),
            None => trim_text(""),
        };
        if path.as_str().unicode_len() > 0 {
            ExportFolder::Custom(path)
        } else {
            ExportFolder::Unset
        }
    } else {
        ExportFolder::Unset
    }
}

/// Picks the folder for an export from the preset as the user wrote it, in
/// any letter case; the documents where none is written.
pub fn resolve_export_directory(folder_preset: Option<&str>, custom_path: Option<&str>) -> (r:
    ExportFolder)
    ensures
        r@ == folder_for(
            lowercase(or_text(folder_preset.deep_view(), "documents"@)),
            custom_path.deep_view(),
        ),
{
    let preset = match folder_preset {
        Some(preset) => to_lowercase(preset),
        None => to_lowercase("documents"),
    };
    pick_export_folder(preset.as_str(), custom_path)
}

/// The extension of the file that a picture of the topology is saved in,
/// from the format asked for, trimmed and in lower case: `png` and `svg` are
/// their own extensions; `mmd`, `code` and `txt` are saved as `mmd`.
pub open spec fn asset_extension(format: Seq<char>) -> Result<Seq<char>, Seq<char>> {
    if format.len() == 0 {
        Err("Format is required"@)
    } else if format == "png"@ {
        Ok("png"@)
    } else if format == "svg"@ {
        Ok("svg"@)
    } else if format == "mmd"@ || format == "code"@ || format == "txt"@ {
        Ok("mmd"@)
    } else {
        Err("Unsupported topology export format"@)
    }
}

/// The views of an extension, or of a refusal.
pub open spec fn text_view(r: Result<String, String>) -> Result<Seq<char>, Seq<char>> {
    match r {
        Ok(text) => Ok(text@),
        Err(message) => Err(message@),
    }
}

/// Picks the extension for a format that is trimmed and in lower case.
pub fn pick_asset_extension(format: &str) -> (r: Result<String, String>)
    ensures
        text_view(r) == asset_extension(format@),
{
    if format.unicode_len() == 0 {
        Err(String::from_str("Format is required"))
    } else if str_eq(format, "png") {
        Ok(String::from_str("png"))
    } else if str_eq(format, "svg") {
        Ok(String::from_str("svg"))
    } else if str_eq(format, "mmd") || str_eq(format, "code") || str_eq(format, "txt") {
        Ok(String::from_str("mmd"))
    } else {
        Err(String::from_str("Unsupported topology export format"))
    }
}

/// Picks the extension for a format as the user wrote it.
pub fn topology_asset_extension(format: &str) -> (r: Result<String, String>)
    ensures
        text_view(r) == asset_extension(lowercase(trimmed(format@))),
{
    let format = to_lowercase(trim_text(format).as_str());
    pick_asset_extension(format.as_str())
}

/// The name of the file that a picture of the topology is saved in: the name
/// asked for, trimmed, with the extension added unless `lowered`, its
/// lower-case form, ends with it; and `zone-topology` with the extension
/// where no name is asked for.
pub open spec fn asset_name(name: Seq<char>, lowered: Seq<char>, extension: Seq<char>) -> Seq<char> {
    if name.len() == 0 {
        "zone-topology."@ + extension
    } else if ends_with(lowered, "."@ + extension) {
        name
    } else {
        name + "."@ + extension
    }
}

/// Names the file for a name that is trimmed, given with its lower-case
/// form.
pub fn pick_asset_name(name: &str, lowered: &str, extension: &str) -> (r: String)
    ensures
        r@ == asset_name(name@, lowered@, extension@),
{
    let mut suffix = String::from_str(".");
    suffix.append(extension);
    if name.unicode_len() == 0 {
        String::from_str("zone-topology.").concat(extension)
    } else if has_suffix(&chars_of(lowered), &chars_of(suffix.as_str())) {
        String::from_str(name)
    } else {
        String::from_str(name).concat(suffix.as_str())
    }
}

/// Names the file that a picture of the topology is saved in, from the name
/// as the user wrote it.
pub fn topology_asset_name(file_name: &str, extension: &str) -> (r: String)
    ensures
        r@ == asset_name(trimmed(file_name@), lowercase(trimmed(file_name@)), extension@),
{
    let name = trim_text(file_name);
    let lowered = to_lowercase(name.as_str());
    pick_asset_name(name.as_str(), lowered.as_str(), extension)
}

/// The extension of the file that the audit log is saved in, from the format
/// in lower case: `csv` for CSV, and `json` for anything else.
pub open spec fn audit_extension(format: Seq<char>) -> Seq<char> {
    if format == "csv"@ {
        "csv"@
    } else {
        "json"@
    }
}

/// The name of the file that the audit log is saved in: `audit-log`, the
/// stamp of the time of saving where one is given, and the extension.
pub open spec fn audit_name(format: Seq<char>, stamp: Option<Seq<char>>) -> Seq<char> {
    match stamp {
        Some(stamp) => "audit-log-"@ + stamp + "."@ + audit_extension(format),
        None => "audit-log."@ + audit_extension(format),
    }
}

/// Names the file that the audit log is saved in, for a format in lower case.
pub fn audit_file_name(format: &str, stamp: Option<&str>) -> (r: String)
    ensures
        r@ == audit_name(format@, stamp.deep_view()),
{
    let extension = if str_eq(format, "csv") {
        "csv"
    } else {
        "json"
    };
    match stamp {
        Some(stamp) => {
            let mut name = String::from_str("audit-log-");
            name.append(stamp);
            name.append(".");
            name.append(extension);
            name
        },
        None => String::from_str("audit-log.").concat(extension),
    }
}

} // verus!
