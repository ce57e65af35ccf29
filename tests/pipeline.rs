use oragac::driver::{
    expected_version, reconcile, scan_roots, select_version, uninstall_command, GacRoot,
};
use oragac::error::ReconcileError;
use oragac::gac::{
    check_version_ok, is_obsolete, is_oracle_vendor, make_assembly_name, scan_gac,
    version_of_entry, Architecture, VendorDir,
};
use oragac::inventory::{extract_version, fits_tokenizer, parse_version, XmlEvent};
use oragac::text::{contains_text, find_text, same_text, text_less};
use oragac::version::{build_net_version, get_net_match_ver, net_version_from_captures};

fn vendor(name: &str, entries: &[&str]) -> VendorDir {
    VendorDir {
        name: name.to_string(),
        entries: entries.iter().map(|e| e.to_string()).collect(),
    }
}

fn inventory(version: &str) -> String {
    format!(
        "<?xml version=\"1.0\"?>\n<INVENTORY>\n<VERSION_INFO>\n<SAVED_WITH>{}</SAVED_WITH>\n<MINIMUM_VER>2.1.0.6.0</MINIMUM_VER>\n</VERSION_INFO>\n</INVENTORY>\n",
        version
    )
}

const KEY: &str = "89b483f429c47342";

#[test]
fn extracts_saved_with_version() {
    let doc = "<INVENTORY><SAVED_WITH>12.1.0.2.0</SAVED_WITH></INVENTORY>";
    assert_eq!(parse_version(doc), Ok("12.1.0.2.0".to_string()));
    assert_eq!(parse_version(&inventory("11.2.0.1.0")), Ok("11.2.0.1.0".to_string()));
}

#[test]
fn missing_saved_with_is_not_found() {
    let doc = "<INVENTORY><MINIMUM_VER>2.1.0.6.0</MINIMUM_VER></INVENTORY>";
    assert_eq!(parse_version(doc), Err(ReconcileError::VersionNotFound));
    assert_eq!(parse_version("<A><SAVED_WITH></SAVED_WITH></A>"), Err(ReconcileError::VersionNotFound));
}

#[test]
fn malformed_inventory_is_a_parse_error() {
    assert_eq!(parse_version("<A x=1><SAVED_WITH>1.2</SAVED_WITH></A>"), Err(ReconcileError::XmlParse));
}

#[test]
fn extraction_takes_only_text_right_after_the_tag() {
    let events = vec![
        XmlEvent::ElementStart("SAVED_WITH".to_string()),
        XmlEvent::Other,
        XmlEvent::Characters("1.0.0.0.0".to_string()),
        XmlEvent::Characters("ignored".to_string()),
        XmlEvent::ElementStart("OTHER".to_string()),
        XmlEvent::Characters("also ignored".to_string()),
    ];
    assert_eq!(extract_version(&events), Some("1.0.0.0.0".to_string()));
}

#[test]
fn extraction_keeps_the_last_non_empty_capture() {
    let events = vec![
        XmlEvent::ElementStart("SAVED_WITH".to_string()),
        XmlEvent::Characters("1.0.0.0.0".to_string()),
        XmlEvent::ElementStart("SAVED_WITH".to_string()),
        XmlEvent::Characters("2.0.0.0.0".to_string()),
        XmlEvent::ElementStart("SAVED_WITH".to_string()),
        XmlEvent::Characters("".to_string()),
        XmlEvent::Characters("not captured".to_string()),
    ];
    assert_eq!(extract_version(&events), Some("2.0.0.0.0".to_string()));
    assert_eq!(extract_version(&vec![]), None);
    assert_eq!(extract_version(&vec![XmlEvent::Characters("1".to_string())]), None);
}

#[test]
fn driver_version_drops_zero_middle_groups() {
    assert_eq!(get_net_match_ver("12.1.0.2.0"), Ok("2.121.2.0".to_string()));
    assert_eq!(get_net_match_ver("11.2.0.1.0"), Ok("2.112.1.0".to_string()));
    assert_eq!(get_net_match_ver("12.1.3.4.0"), Ok("2.121.34.0".to_string()));
    assert_eq!(get_net_match_ver("12.1.0.0.5"), Ok("2.121..5".to_string()));
    assert_eq!(get_net_match_ver("12.1.3.0.0"), Ok("2.121.3.0".to_string()));
    assert_eq!(get_net_match_ver("10.20.30.40.50"), Ok("2.1020.3040.50".to_string()));
}

#[test]
fn driver_version_rejects_other_text() {
    assert_eq!(get_net_match_ver("abc"), Err(ReconcileError::VersionParse));
    assert_eq!(get_net_match_ver("12.1.0.2"), Err(ReconcileError::VersionParse));
    assert_eq!(get_net_match_ver(""), Err(ReconcileError::VersionParse));
}

#[test]
fn driver_version_from_groups() {
    assert_eq!(build_net_version("12", "1", "0", "2", "0"), "2.121.2.0");
    assert_eq!(build_net_version("12", "1", "00", "2", "0"), "2.121.002.0");
    let caps = vec![
        Some("12.1.0.2.0".to_string()),
        Some("12".to_string()),
        Some("1".to_string()),
        Some("0".to_string()),
        Some("2".to_string()),
        Some("0".to_string()),
    ];
    assert_eq!(net_version_from_captures(&caps), Some("2.121.2.0".to_string()));
    assert_eq!(net_version_from_captures(&caps[..5].to_vec()), None);
    let mut missing = caps.clone();
    missing[3] = None;
    assert_eq!(net_version_from_captures(&missing), None);
}

#[test]
fn equal_versions_are_kept() {
    assert!(!is_obsolete("12.1.0.2.0", "12.1.0.2.0"));
    assert!(check_version_ok("12.1.0.2.0__89b483f429c47342", "12.1.0.2.0"));
}

#[test]
fn comparison_is_lexicographic() {
    assert!(is_obsolete("9.0.0.0.0", "10.0.0.0.0"));
    assert!(!is_obsolete("10.0.0.0.0", "9.0.0.0.0"));
    assert!(is_obsolete("2.122.0.0", "2.121.2.0"));
    assert!(!is_obsolete("2.121", "2.121.2.0"));
    assert!(is_obsolete("2.121.2.0.1", "2.121.2.0"));
    assert!(!check_version_ok("2.122.0.0__89b483f429c47342", "2.121.2.0"));
}

#[test]
fn text_helpers() {
    assert_eq!(find_text("a__b__c", "__"), Some(1));
    assert_eq!(find_text("abc", "__"), None);
    assert_eq!(find_text("abc", ""), Some(0));
    assert!(contains_text("Policy.Oracle.DataAccess", "Oracle"));
    assert!(!contains_text("oracle.dataaccess", "Oracle"));
    assert!(text_less("a", "b"));
    assert!(text_less("ab", "abc"));
    assert!(!text_less("abc", "abc"));
    assert!(same_text("GAC_64", "GAC_64"));
    assert!(!same_text("GAC_64", "GAC_6"));
    assert_eq!(version_of_entry("2.112.1.0__89b483f429c47342"), "2.112.1.0");
    assert_eq!(version_of_entry("plain"), "plain");
}

#[test]
fn vendor_marker_is_a_case_sensitive_substring() {
    assert!(is_oracle_vendor("Oracle.DataAccess"));
    assert!(is_oracle_vendor("Policy.2.112.Oracle.ManagedDataAccess"));
    assert!(!is_oracle_vendor("oracle.dataaccess"));
    assert!(!is_oracle_vendor("System.Data"));
}

#[test]
fn scan_ignores_other_vendors() {
    let vendors = vec![
        vendor("System.Data", &["9.9.9.9__b77a5c561934e089", "bad"]),
        vendor("Oracle.DataAccess", &["2.122.0.0__89b483f429c47342", "2.112.1.0__89b483f429c47342"]),
        vendor("oracle.web", &["9.0.0.0__89b483f429c47342"]),
    ];
    let found = scan_gac("GAC_32", &vendors, "2.121.2.0").unwrap();
    assert_eq!(
        found,
        vec![format!(
            "Oracle.DataAccess, Version=2.122.0.0, Culture=neutral, PublicKeyToken={}, processorArchitecture=x86",
            KEY
        )]
    );
    assert_eq!(scan_gac("GAC_32", &vec![], "2.121.2.0"), Ok(vec![]));
}

#[test]
fn scan_keeps_listing_order_and_fails_on_malformed_stale_entry() {
    let vendors = vec![
        vendor("Oracle.B", &["3.0__k1", "1.0__k2", "4.0__k3"]),
        vendor("Oracle.A", &["5.0__k4"]),
    ];
    let found = scan_gac("GAC_MSIL", &vendors, "2.0").unwrap();
    let versions: Vec<&str> = found
        .iter()
        .map(|s| s.split(", ").nth(1).unwrap())
        .collect();
    assert_eq!(versions, vec!["Version=3.0", "Version=4.0", "Version=5.0"]);
    assert!(found[0].ends_with("processorArchitecture=MSIL"));
    let bad = vec![vendor("Oracle.A", &["1.0__k", "9.0"])];
    assert_eq!(scan_gac("GAC_64", &bad, "2.0"), Err(ReconcileError::MalformedEntry));
    let kept = vec![vendor("Oracle.A", &["1.0"])];
    assert_eq!(scan_gac("GAC_64", &kept, "2.0"), Ok(vec![]));
}

#[test]
fn assembly_identity_for_gac_64() {
    assert_eq!(
        make_assembly_name("GAC_64", "Oracle.DataAccess", "2.112.1.0__89b483f429c47342"),
        Ok("Oracle.DataAccess, Version=2.112.1.0, Culture=neutral, PublicKeyToken=89b483f429c47342, processorArchitecture=AMD64".to_string())
    );
}

#[test]
fn assembly_identity_architectures() {
    let name = |tag: &str| make_assembly_name(tag, "Oracle.X", "1.0__k").unwrap();
    assert!(name("GAC_32").ends_with("processorArchitecture=x86"));
    assert!(name("GAC_MSIL").ends_with("processorArchitecture=MSIL"));
    assert!(name("GAC").ends_with("processorArchitecture=##Unknown Architecture##"));
    assert_eq!(Architecture::from_tag("GAC_64"), Architecture::Gac64);
    assert_eq!(Architecture::from_tag("gac_64"), Architecture::Unknown);
    assert_eq!(Architecture::Gac32.processor(), "x86");
}

#[test]
fn malformed_version_folder() {
    assert_eq!(make_assembly_name("GAC_64", "Oracle.X", "2.112.1.0"), Err(ReconcileError::MalformedEntry));
    assert_eq!(make_assembly_name("GAC_64", "Oracle.X", "1__2__3"), Err(ReconcileError::MalformedEntry));
    assert_eq!(
        make_assembly_name("GAC_64", "Oracle.X", "1___k"),
        Ok("Oracle.X, Version=1, Culture=neutral, PublicKeyToken=_k, processorArchitecture=AMD64".to_string())
    );
}

#[test]
fn selection_of_installed_version() {
    let ok = |s: &str| Ok::<String, ReconcileError>(s.to_string());
    assert_eq!(select_version(Err(ReconcileError::Io), Err(ReconcileError::XmlParse)), Err(ReconcileError::NoInstallFound));
    assert_eq!(select_version(ok("1"), Err(ReconcileError::Io)), ok("1"));
    assert_eq!(select_version(Err(ReconcileError::Io), ok("2")), ok("2"));
    assert_eq!(select_version(ok("3"), ok("3")), ok("3"));
    assert_eq!(
        select_version(ok("3"), ok("4")),
        Err(ReconcileError::VersionMismatch { v32: "3".to_string(), v64: "4".to_string() })
    );
}

#[test]
fn expected_version_from_one_inventory() {
    let doc = inventory("12.1.0.2.0");
    assert_eq!(expected_version(None, Some(&doc)), Ok("2.121.2.0".to_string()));
    assert_eq!(expected_version(Some("<broken"), Some(&doc)), Ok("2.121.2.0".to_string()));
    assert_eq!(expected_version(Some(&inventory("bad")), None), Err(ReconcileError::VersionParse));
}

#[test]
fn end_to_end_one_obsolete_gac_64_entry() {
    let doc = inventory("12.1.0.2.0");
    let roots = vec![
        GacRoot { tag: "GAC_32".to_string(), vendors: vec![] },
        GacRoot {
            tag: "GAC_64".to_string(),
            vendors: vec![vendor("Oracle.DataAccess", &["2.122.0.0__89b483f429c47342", "2.121.2.0__89b483f429c47342"])],
        },
    ];
    let report = reconcile(Some(&doc), Some(&doc), &roots).unwrap();
    assert_eq!(report.expected, "2.121.2.0");
    assert_eq!(
        report.commands,
        vec![format!(
            "gacutil /u \"Oracle.DataAccess, Version=2.122.0.0, Culture=neutral, PublicKeyToken={}, processorArchitecture=AMD64\"",
            KEY
        )]
    );
}

#[test]
fn end_to_end_mismatch_reports_both_versions() {
    let a = inventory("12.1.0.2.0");
    let b = inventory("11.2.0.4.0");
    assert_eq!(
        reconcile(Some(&a), Some(&b), &vec![]),
        Err(ReconcileError::VersionMismatch { v32: "12.1.0.2.0".to_string(), v64: "11.2.0.4.0".to_string() })
    );
}

#[test]
fn end_to_end_no_install() {
    assert_eq!(reconcile(None, None, &vec![]), Err(ReconcileError::NoInstallFound));
    assert_eq!(reconcile(Some("<x>"), Some("no xml here"), &vec![]), Err(ReconcileError::NoInstallFound));
}

#[test]
fn roots_are_scanned_in_order() {
    let roots = vec![
        GacRoot { tag: "GAC_32".to_string(), vendors: vec![vendor("Oracle.A", &["9__k"])] },
        GacRoot { tag: "GAC_64".to_string(), vendors: vec![vendor("Oracle.A", &["8__k"])] },
    ];
    let ids = scan_roots(&roots, "1").unwrap();
    assert_eq!(ids.len(), 2);
    assert!(ids[0].contains("Version=9") && ids[0].ends_with("x86"));
    assert!(ids[1].contains("Version=8") && ids[1].ends_with("AMD64"));
    assert_eq!(uninstall_command("X"), "gacutil /u \"X\"");
}

#[test]
fn driver_version_needs_exactly_five_dotted_digit_groups() {
    assert_eq!(get_net_match_ver("12x1x0x2x0"), Err(ReconcileError::VersionParse));
    assert_eq!(get_net_match_ver("v12.1.0.2.0"), Err(ReconcileError::VersionParse));
    assert_eq!(get_net_match_ver("1.2.3.4.5.6"), Err(ReconcileError::VersionParse));
    assert_eq!(get_net_match_ver("12.1.0.2.0 "), Err(ReconcileError::VersionParse));
    assert_eq!(get_net_match_ver("12..0.2.0"), Err(ReconcileError::VersionParse));
    assert_eq!(get_net_match_ver("١٢.1.0.2.0"), Err(ReconcileError::VersionParse));
    assert_eq!(get_net_match_ver("1.2.3.4.5"), Ok("2.12.34.5".to_string()));
}

#[test]
fn long_bracket_runs_are_refused_before_tokenizing() {
    let doc = |n: usize| {
        format!(
            "<A><SAVED_WITH>1.2.3.4.5</SAVED_WITH><![CDATA[{}>]]></A>",
            "]".repeat(n)
        )
    };
    assert!(fits_tokenizer(&doc(255)));
    assert_eq!(parse_version(&doc(255)), Ok("1.2.3.4.5".to_string()));
    assert!(!fits_tokenizer(&doc(256)));
    assert_eq!(parse_version(&doc(256)), Err(ReconcileError::XmlParse));
    assert!(fits_tokenizer(""));
    assert!(fits_tokenizer(&"]]x".repeat(300)));
}

#[test]
fn vendor_marker_substring_in_scan() {
    let vendors = vec![
        vendor("Policy.2.112.Oracle.DataAccess", &["9.0.0.0.0__k1"]),
        vendor("oracle.dataaccess", &["9.0.0.0.0__k2"]),
    ];
    assert_eq!(
        scan_gac("GAC_64", &vendors, "2.121.2.0"),
        Ok(vec!["Policy.2.112.Oracle.DataAccess, Version=9.0.0.0.0, Culture=neutral, PublicKeyToken=k1, processorArchitecture=AMD64".to_string()])
    );
}

#[test]
fn end_to_end_newer_gac_64_driver() {
    let doc = inventory("12.1.0.2.0");
    let roots = vec![
        GacRoot { tag: "GAC_32".to_string(), vendors: vec![] },
        GacRoot {
            tag: "GAC_64".to_string(),
            vendors: vec![vendor("Oracle.DataAccess", &["2.122.1.0__89b483f429c47342"])],
        },
    ];
    let report = reconcile(Some(&doc), Some(&doc), &roots).unwrap();
    assert_eq!(
        report.commands,
        vec!["gacutil /u \"Oracle.DataAccess, Version=2.122.1.0, Culture=neutral, PublicKeyToken=89b483f429c47342, processorArchitecture=AMD64\"".to_string()]
    );
}
