use utils_box::config::{compare, ini_compare, IniCompare, IniDocument, IniParameter, IniSection, ConfigError};
use utils_box::patch::{apply_patch, default_protected_properties, ini_update_text};

fn p(section: Option<&str>, property: &str, value: &str) -> IniParameter {
    IniParameter::new(
        section.map(|s| s.to_string()),
        property.to_string(),
        value.to_string(),
    )
}

fn section(name: Option<&str>, props: &[(&str, &str)]) -> IniSection {
    IniSection {
        name: name.map(|s| s.to_string()),
        properties: props
            .iter()
            .map(|(k, v)| (k.to_string(), v.to_string()))
            .collect(),
    }
}

fn sorted(mut c: IniCompare) -> IniCompare {
    c.added.sort_unstable();
    c.deleted.sort_unstable();
    c.updated.sort_unstable();
    c
}

#[test]
fn compare_test() {
    let a_config = "[version]
; format: <major>.<minor>. Example 1.2
config_file_version = 10.0

; A list of compatible FPGA bitstreams.
compatible_fpga = 2.0.0

; Possible values: A1, B2
sys_variant = B2

[log]
; This parameter sets the minimum log level that will be printed.
; 0 = Trace
; 1 = Debug
; 2 = Info
; 3 = Warning
; 4 = Error
; 5 = Fatal
log_level = 0
test_removed = 3

[board_control]
ref_clk_select = INT

; This setting deactivates dynamic fan speed control.
always_apply_full_fan_speed = 0

";
    let b_config = "[version]
; format: <major>.<minor>. Example 1.2
config_file_version = 10.1

; A list of compatible FPGA bitstreams.
; If the bitstream loaded to the board is not found in the list below, the firmware will not operate.
; The version string should follow \"X.Y.Z\" format. All versions should be separated with a space character.
; Typically, this field should not be modified in a file provided in the release
; package. Note that entering a version that is not compatible might lead to firmware crash.
compatible_fpga = 2.0.0

; Possible values: A1, B2
; Basing on this parameter value the FW configures the Tx Board and selects how many and which PA channels are to be used.
; The behavior when any other parameter is selected is undefined.
sys_variant = UNDEFINED

[log]
; This parameter sets the minimum log level that will be printed.
; 0 = Trace
; 1 = Debug
; 2 = Info
; 3 = Warning
; 4 = Error
; 5 = Fatal
log_level = 2

[power_control]
test_added = YEAH

[board_control]
ref_clk_select = INT

; This setting deactivates dynamic fan speed control.
always_apply_full_fan_speed = 0

";

    let results = ini_compare(a_config, b_config).unwrap();

    println!("{:#?}", results);

    let expected = IniCompare {
        updated: [
            (
                p(Some("version"), "config_file_version", "10.0"),
                p(Some("version"), "config_file_version", "10.1"),
            ),
            (
                p(Some("version"), "sys_variant", "B2"),
                p(Some("version"), "sys_variant", "UNDEFINED"),
            ),
            (
                p(Some("log"), "log_level", "0"),
                p(Some("log"), "log_level", "2"),
            ),
        ]
        .to_vec(),
        added: [p(Some("power_control"), "test_added", "YEAH")].to_vec(),
        deleted: [p(Some("log"), "test_removed", "3")].to_vec(),
    };

    assert_eq!(sorted(expected), sorted(results));
}

#[test]
fn scenario_removed_and_changed_property() {
    let a = IniDocument {
        sections: vec![
            section(None, &[("config_file_version", "1")]),
            section(Some("log"), &[("log_level", "0"), ("test_removed", "3")]),
        ],
    };
    let b = IniDocument {
        sections: vec![
            section(None, &[("config_file_version", "1")]),
            section(Some("log"), &[("log_level", "2")]),
        ],
    };
    let r = compare(&a, &b);
    assert_eq!(
        r.updated,
        vec![(p(Some("log"), "log_level", "0"), p(Some("log"), "log_level", "2"))]
    );
    assert_eq!(r.deleted, vec![p(Some("log"), "test_removed", "3")]);
    assert!(r.added.is_empty());
}

#[test]
fn scenario_added_section() {
    let a = IniDocument {
        sections: vec![section(Some("log"), &[("log_level", "0")])],
    };
    let b = IniDocument {
        sections: vec![
            section(Some("log"), &[("log_level", "0")]),
            section(Some("power_control"), &[("test_added", "YEAH")]),
        ],
    };
    let r = compare(&a, &b);
    assert_eq!(r.added, vec![p(Some("power_control"), "test_added", "YEAH")]);
    assert!(r.deleted.is_empty());
    assert!(r.updated.is_empty());
}

#[test]
fn scenario_patch_reverts_value() {
    let mut c = IniCompare::new();
    c.updated.push((p(None, "log_level", "0"), p(None, "log_level", "2")));
    let out = apply_patch("log_level = 2", &c, &Vec::new());
    assert!(out.contains("log_level = 0"));
    assert_eq!(out, "log_level = 0");
}

#[test]
fn scenario_patch_keeps_protected_value() {
    let mut c = IniCompare::new();
    c.updated.push((p(None, "log_level", "0"), p(None, "log_level", "2")));
    let out = apply_patch("log_level = 2", &c, &vec!["log_level".to_string()]);
    assert_eq!(out, "log_level = 2");
}

#[test]
fn compare_with_itself_is_empty() {
    let d = IniDocument {
        sections: vec![
            section(None, &[("a", "1")]),
            section(Some("s"), &[("x", ""), ("y", "2")]),
        ],
    };
    let r = compare(&d, &d);
    assert!(r.added.is_empty());
    assert!(r.deleted.is_empty());
    assert!(r.updated.is_empty());
}

#[test]
fn compare_partitions_properties() {
    let a = IniDocument {
        sections: vec![section(Some("s"), &[("same", "1"), ("changed", "1"), ("gone", "1")])],
    };
    let b = IniDocument {
        sections: vec![section(Some("s"), &[("same", "1"), ("changed", "2"), ("new", "1")])],
    };
    let r = compare(&a, &b);
    assert_eq!(r.added, vec![p(Some("s"), "new", "1")]);
    assert_eq!(r.deleted, vec![p(Some("s"), "gone", "1")]);
    assert_eq!(
        r.updated,
        vec![(p(Some("s"), "changed", "1"), p(Some("s"), "changed", "2"))]
    );
    let all: Vec<&String> = r
        .added
        .iter()
        .chain(r.deleted.iter())
        .map(|x| x.property())
        .chain(r.updated.iter().map(|u| u.0.property()))
        .collect();
    assert!(!all.iter().any(|k| k.as_str() == "same"));
}

#[test]
fn removed_section_is_deleted_whole() {
    let a = IniDocument {
        sections: vec![
            section(None, &[]),
            section(Some("old"), &[("k1", "v1"), ("k2", "v2")]),
        ],
    };
    let b = IniDocument {
        sections: vec![section(None, &[])],
    };
    let r = sorted(compare(&a, &b));
    assert_eq!(
        r.deleted,
        vec![p(Some("old"), "k1", "v1"), p(Some("old"), "k2", "v2")]
    );
    assert!(r.added.is_empty());
    assert!(r.updated.is_empty());
}

#[test]
fn global_section_takes_part() {
    let a = IniDocument {
        sections: vec![section(None, &[("g", "1")])],
    };
    let b = IniDocument {
        sections: vec![],
    };
    let r = compare(&a, &b);
    assert_eq!(r.deleted, vec![p(None, "g", "1")]);
}

#[test]
fn first_occurrence_counts() {
    let a = IniDocument {
        sections: vec![
            section(Some("s"), &[("k", "1"), ("k", "9")]),
            section(Some("s"), &[("k", "5"), ("z", "1")]),
        ],
    };
    let b = IniDocument {
        sections: vec![section(Some("s"), &[("k", "1")])],
    };
    let r = compare(&a, &b);
    assert!(r.added.is_empty());
    assert!(r.deleted.is_empty());
    assert!(r.updated.is_empty());
}

#[test]
fn updated_pairs_differ_only_in_value() {
    let a = IniDocument {
        sections: vec![section(Some("s"), &[("k", "")])],
    };
    let b = IniDocument {
        sections: vec![section(Some("s"), &[("k", "x")])],
    };
    let r = compare(&a, &b);
    assert_eq!(r.updated.len(), 1);
    let (old, new) = &r.updated[0];
    assert_eq!(old.section(), new.section());
    assert_eq!(old.property(), new.property());
    assert_ne!(old.value(), new.value());
}

#[test]
fn ini_compare_rejects_bad_text() {
    let r = ini_compare("[unterminated\nk = v\n", "k = v\n");
    assert_eq!(r.unwrap_err(), ConfigError::Load);
}

#[test]
fn ini_document_parse_reads_sections() {
    let d = IniDocument::parse("g = 1\n[s]\nk = v\n").unwrap();
    assert_eq!(d.sections.len(), 2);
    assert_eq!(d.sections[0].name, None);
    assert_eq!(d.sections[0].properties, vec![("g".to_string(), "1".to_string())]);
    assert_eq!(d.sections[1].name, Some("s".to_string()));
    assert_eq!(d.sections[1].properties, vec![("k".to_string(), "v".to_string())]);
}

#[test]
fn patch_is_textual_across_sections() {
    let mut c = IniCompare::new();
    c.updated.push((p(Some("a"), "k", "1"), p(Some("a"), "k", "2")));
    let text = "[a]\nk = 2\n[b]\nk = 2\nk=2\n";
    let out = apply_patch(text, &c, &Vec::new());
    assert_eq!(out, "[a]\nk = 1\n[b]\nk = 1\nk=2\n");
}

#[test]
fn patch_protected_pairs_change_nothing() {
    let mut c = IniCompare::new();
    c.updated.push((p(None, "v", "1"), p(None, "v", "2")));
    c.updated.push((p(None, "w", "1"), p(None, "w", "2")));
    let text = "v = 2\nw = 2\n";
    let protected = vec!["v".to_string()];
    let out = apply_patch(text, &c, &protected);
    assert_eq!(out, "v = 2\nw = 1\n");
}

#[test]
fn ini_update_text_keeps_config_file_version() {
    let a = "[version]\nconfig_file_version = 10.0\nsys_variant = B2\n";
    let b = "[version]\nconfig_file_version = 10.1\nsys_variant = UNDEFINED\nnew = 1\n";
    let c = ini_compare(a, b).unwrap();
    let out = ini_update_text(b, &c);
    assert_eq!(
        out,
        "[version]\nconfig_file_version = 10.1\nsys_variant = B2\nnew = 1\n"
    );
    assert_eq!(default_protected_properties(), vec!["config_file_version".to_string()]);
}
