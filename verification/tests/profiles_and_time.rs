use zk_ui::config::Cli;
use zk_ui::profiles::{
    checked_reorder_position, folder_path_label, indented_label, reorder_position, ConnForm,
    ConnProfile,
};
use zk_ui::timefmt::{count_string, decimal_string, format_timestamp, hex_string, stat_rows};
use zk_ui::znode::NodeStat;

#[test]
fn reorder_to_the_end() {
    assert_eq!(reorder_position(&vec![], None), 1024);
    assert_eq!(reorder_position(&vec![(1, 0), (2, 1024)], None), 2048);
    assert_eq!(reorder_position(&vec![(1, 0), (2, 1024)], Some(99)), 2048);
}

#[test]
fn reorder_between_siblings() {
    // halfway between the sibling and the last sibling with a smaller id
    assert_eq!(reorder_position(&vec![(1, 1024), (2, 2048), (3, 3072)], Some(3)), 2560);
    assert_eq!(reorder_position(&vec![(5, 1000), (2, 3000)], Some(5)), 2000);
    // no sibling with a smaller id: half the position
    assert_eq!(reorder_position(&vec![(1, 1024), (2, 2048)], Some(1)), 512);
    assert_eq!(reorder_position(&vec![(1, -5)], Some(1)), -2);
    assert_eq!(reorder_position(&vec![(1, -7), (0, 2)], Some(1)), -2);
}

#[test]
fn reorder_overflow_is_caught() {
    assert_eq!(checked_reorder_position(&vec![(1, i32::MAX)], None), None);
    assert_eq!(checked_reorder_position(&vec![(1, i32::MAX), (2, 1)], Some(2)), None);
    assert_eq!(checked_reorder_position(&vec![(1, 10), (2, 20)], Some(2)), Some(15));
    assert_eq!(checked_reorder_position(&vec![(1, i32::MIN)], Some(1)), Some(-1073741824));
}

#[test]
fn folder_labels() {
    assert_eq!(indented_label(0, "a"), "a");
    assert_eq!(indented_label(2, "b"), "    b");
    assert_eq!(folder_path_label("", "top"), "top");
    assert_eq!(folder_path_label("top", "inner"), "top/inner");
}

#[test]
fn connection_form() {
    let f = ConnForm::blank(Some(3));
    assert!(f.editing.is_none());
    assert_eq!(f.hosts, "127.0.0.1:2181");
    assert_eq!(f.timeout_ms, 5000);
    assert_eq!(f.auth_scheme, "digest");
    assert_eq!(f.folder_id, Some(3));
    assert!(f.visible);
    let mut g = ConnForm::blank(None);
    g.hosts = "zk:1".to_string();
    g.fill_default_name();
    assert_eq!(g.name, "zk:1");
    g.name = "named".to_string();
    g.fill_default_name();
    assert_eq!(g.name, "named");
    let conn = ConnProfile {
        id: 9,
        name: "n".into(),
        hosts: "h:1".into(),
        timeout_ms: 1500,
        auth_scheme: "digest".into(),
        auth_credential: "u:p".into(),
        category: String::new(),
        folder_id: Some(2),
        position: 0,
        created_at: String::new(),
        last_used_at: None,
    };
    let e = ConnForm::for_profile(conn);
    assert_eq!(e.editing.as_ref().unwrap().id, 9);
    assert_eq!(e.hosts, "h:1");
    assert_eq!(e.timeout_ms, 1500);
    assert_eq!(e.auth_credential, "u:p");
    assert_eq!(e.folder_id, Some(2));
}

#[test]
fn timestamps() {
    assert_eq!(format_timestamp(0), "N/A");
    assert_eq!(format_timestamp(1662921288000), "2022-09-11 18:34:48");
    assert_eq!(format_timestamp(-1000), "1969-12-31 23:59:59");
    assert_eq!(format_timestamp(i64::MAX), "9223372036854775807");
    assert_eq!(format_timestamp(i64::MIN), "-9223372036854775808");
}

#[test]
fn decimals() {
    assert_eq!(decimal_string(0), "0");
    assert_eq!(decimal_string(42), "42");
    assert_eq!(decimal_string(-7), "-7");
    assert_eq!(count_string(1000), "1000");
}

#[test]
fn command_line_defaults() {
    let c = Cli::default();
    assert_eq!(c.connect, "127.0.0.1:2181");
    assert_eq!(c.timeout, 5000);
}

#[test]
fn hexadecimals() {
    assert_eq!(hex_string(0), "0x0");
    assert_eq!(hex_string(255), "0xff");
    assert_eq!(hex_string(0x1a2b3c), "0x1a2b3c");
    assert_eq!(hex_string(-1), "0xffffffffffffffff");
    assert_eq!(hex_string(i64::MIN), "0x8000000000000000");
    assert_eq!(hex_string(i64::MAX), "0x7fffffffffffffff");
}

#[test]
fn metadata_rows() {
    let st = NodeStat {
        czxid: 0x10,
        mzxid: 0x2a,
        ctime: 0,
        mtime: 1662921288000,
        version: 3,
        cversion: -1,
        aversion: 0,
        ephemeral_owner: 0,
        data_length: 12,
        num_children: 2,
        pzxid: 255,
    };
    let rows = stat_rows(&st);
    let want = vec![
        ("czxid:", "0x10"),
        ("mzxid:", "0x2a"),
        ("ctime:", "N/A"),
        ("mtime:", "2022-09-11 18:34:48"),
        ("version:", "3"),
        ("cversion:", "-1"),
        ("aversion:", "0"),
        ("ephemeralOwner:", "0x0"),
        ("dataLength:", "12"),
        ("numChildren:", "2"),
        ("pzxid:", "0xff"),
    ];
    assert_eq!(rows.len(), want.len());
    for (got, (l, v)) in rows.iter().zip(want) {
        assert_eq!(got.0, l);
        assert_eq!(got.1, v);
    }
}
