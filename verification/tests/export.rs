use domain_audit::export::{
    audit_file_name, pick_asset_extension, pick_asset_name, pick_export_folder,
    resolve_export_directory, topology_asset_extension, topology_asset_name, ExportFolder,
};

fn custom(folder: ExportFolder) -> Option<String> {
    match folder {
        ExportFolder::Custom(path) => Some(path),
        _ => None,
    }
}

#[test]
fn presets_stand_for_folders() {
    assert!(matches!(resolve_export_directory(None, None), ExportFolder::Documents));
    assert!(matches!(resolve_export_directory(Some("documents"), None), ExportFolder::Documents));
    assert!(matches!(resolve_export_directory(Some("Downloads"), None), ExportFolder::Downloads));
    assert!(matches!(resolve_export_directory(Some("DESKTOP"), None), ExportFolder::Desktop));
    assert!(matches!(resolve_export_directory(Some("home"), Some("/tmp")), ExportFolder::Home));
    assert!(matches!(resolve_export_directory(Some("pictures"), Some("/tmp")), ExportFolder::Unset));
    assert!(matches!(resolve_export_directory(Some(""), None), ExportFolder::Unset));
    assert!(matches!(resolve_export_directory(Some(" home"), None), ExportFolder::Unset));
}

#[test]
fn the_custom_preset_takes_the_trimmed_path() {
    assert_eq!(
        custom(resolve_export_directory(Some("Custom"), Some("  /var/exports \n"))),
        Some(String::from("/var/exports"))
    );
    assert!(matches!(resolve_export_directory(Some("custom"), Some("   ")), ExportFolder::Unset));
    assert!(matches!(resolve_export_directory(Some("custom"), None), ExportFolder::Unset));
    assert!(matches!(pick_export_folder("Custom", Some("/var")), ExportFolder::Unset));
    assert_eq!(custom(pick_export_folder("custom", Some("/var"))), Some(String::from("/var")));
}

#[test]
fn formats_of_topology_pictures() {
    assert_eq!(topology_asset_extension("png"), Ok(String::from("png")));
    assert_eq!(topology_asset_extension(" SVG "), Ok(String::from("svg")));
    assert_eq!(topology_asset_extension("mmd"), Ok(String::from("mmd")));
    assert_eq!(topology_asset_extension("Code"), Ok(String::from("mmd")));
    assert_eq!(topology_asset_extension("txt"), Ok(String::from("mmd")));
    assert_eq!(topology_asset_extension(""), Err(String::from("Format is required")));
    assert_eq!(topology_asset_extension("  \t"), Err(String::from("Format is required")));
    assert_eq!(
        topology_asset_extension("pdf"),
        Err(String::from("Unsupported topology export format"))
    );
    assert_eq!(
        pick_asset_extension("PNG"),
        Err(String::from("Unsupported topology export format"))
    );
}

#[test]
fn names_of_topology_pictures() {
    assert_eq!(topology_asset_name("", "png"), "zone-topology.png");
    assert_eq!(topology_asset_name("   ", "mmd"), "zone-topology.mmd");
    assert_eq!(topology_asset_name(" map ", "svg"), "map.svg");
    assert_eq!(topology_asset_name("map.svg", "svg"), "map.svg");
    assert_eq!(topology_asset_name("Map.SVG", "svg"), "Map.SVG");
    assert_eq!(topology_asset_name("map.png", "svg"), "map.png.svg");
    assert_eq!(topology_asset_name("mapsvg", "svg"), "mapsvg.svg");
    assert_eq!(topology_asset_name(".svg", "svg"), ".svg");
    assert_eq!(pick_asset_name("Map.SVG", "Map.SVG", "svg"), "Map.SVG.svg");
}

#[test]
fn names_of_audit_logs() {
    assert_eq!(audit_file_name("csv", None), "audit-log.csv");
    assert_eq!(audit_file_name("json", None), "audit-log.json");
    assert_eq!(audit_file_name("xml", None), "audit-log.json");
    assert_eq!(audit_file_name("CSV", None), "audit-log.json");
    assert_eq!(audit_file_name("csv", Some("20250601-120000")), "audit-log-20250601-120000.csv");
    assert_eq!(audit_file_name("", Some("20250601-120000")), "audit-log-20250601-120000.json");
}
