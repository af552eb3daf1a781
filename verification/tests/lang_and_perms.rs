use zk_ui::lang::Lang;
use zk_ui::znode::{perm_flags, perm_string, perms_from_flags, CreateMode, NodeStat};

#[test]
fn toggle_switches_language() {
    assert_eq!(Lang::En.toggle(), Lang::Zh);
    assert_eq!(Lang::Zh.toggle(), Lang::En);
    assert_eq!(Lang::En.toggle().toggle(), Lang::En);
}

#[test]
fn language_labels() {
    assert_eq!(Lang::En.label(), "EN/中");
    assert_eq!(Lang::Zh.label(), "中/EN");
    assert_eq!(Lang::En.pick("Save", "保存"), "Save");
    assert_eq!(Lang::Zh.pick("Save", "保存"), "保存");
}

#[test]
fn perm_string_examples() {
    assert_eq!(perm_string(31), "rwcda");
    assert_eq!(perm_string(1), "r");
    assert_eq!(perm_string(0), "-");
    assert_eq!(perm_string(5), "rc");
    assert_eq!(perm_string(24), "da");
    assert_eq!(perm_string(32), "-");
    assert_eq!(perm_string(33), "r");
}

#[test]
fn perm_flags_round_trip() {
    assert_eq!(perm_flags(31), (true, true, true, true, true));
    assert_eq!(perm_flags(6), (false, true, true, false, false));
    assert_eq!(perms_from_flags(true, false, true, false, true), 21);
    let f = perm_flags(0xffff_ffe3);
    assert_eq!(perms_from_flags(f.0, f.1, f.2, f.3, f.4), 0xffff_ffe3 & 31);
}

#[test]
fn create_mode_labels() {
    assert_eq!(CreateMode::Persistent.label(), "Persistent");
    assert_eq!(CreateMode::Ephemeral.label(), "Ephemeral");
    assert_eq!(CreateMode::PersistentSequential.label(), "Persistent Sequential");
    assert_eq!(CreateMode::EphemeralSequential.label(), "Ephemeral Sequential");
}

#[test]
fn zero_stat_is_all_zero() {
    let s = NodeStat::zero();
    assert_eq!(s.version, 0);
    assert_eq!(s.num_children, 0);
    assert_eq!(s.czxid, 0);
    assert_eq!(s.pzxid, 0);
}
