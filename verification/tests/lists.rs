//! Presets, the log and the search for the supply.

use spe6103::csvlog::{log_append, log_line, log_slot, log_start, log_stop, LOG_HEADER, LOG_SIZE_LIMIT};
use spe6103::presets::{is_list, nothing_stored, preset_delete, preset_import, preset_save, Preset};
use spe6103::scan::{is_usb_name, list_serial_ports, not_found, psu_scan, sort_ch340_first};
use spe6103::scpi::Step;

fn preset(id: &str, name: &str, volt: f64, curr: f64) -> Preset {
    Preset {
        id: id.to_string(),
        name: name.to_string(),
        volt: volt.to_bits(),
        curr: curr.to_bits(),
        ovp: None,
        ocp: Some(1.5f64.to_bits()),
        note: "".to_string(),
        updated: "2024-01-01".to_string(),
    }
}

fn ids(ps: &[Preset]) -> Vec<String> {
    ps.iter().map(|p| p.id.clone()).collect()
}

#[test]
fn saving_replaces_or_appends() {
    let mut ps: Vec<Preset> = Vec::new();
    assert_eq!(preset_save(&mut ps, preset("a", "one", 5.0, 1.0)), Ok(()));
    assert_eq!(preset_save(&mut ps, preset("b", "two", 12.0, 2.0)), Ok(()));
    assert_eq!(preset_save(&mut ps, preset("a", "three", 3.3, 0.5)), Ok(()));
    assert_eq!(ids(&ps), vec!["a", "b"]);
    assert_eq!(ps[0], preset("a", "three", 3.3, 0.5));
    assert_eq!(ps[1], preset("b", "two", 12.0, 2.0));
    // A second time changes nothing.
    assert_eq!(preset_save(&mut ps, preset("a", "three", 3.3, 0.5)), Ok(()));
    assert_eq!(ids(&ps), vec!["a", "b"]);
}

#[test]
fn saving_refuses() {
    let mut ps: Vec<Preset> = Vec::new();
    let blank = Err("id/nameが空です".to_string());
    assert_eq!(preset_save(&mut ps, preset(" ", "x", 1.0, 1.0)), blank);
    assert_eq!(preset_save(&mut ps, preset("x", "\u{3000}", 1.0, 1.0)), blank);
    let range = Err("V/A範囲外です".to_string());
    assert_eq!(preset_save(&mut ps, preset("x", "x", 60.01, 1.0)), range);
    assert_eq!(preset_save(&mut ps, preset("x", "x", 1.0, -1.0)), range);
    assert_eq!(
        preset_save(&mut ps, preset("x", "x", 60.0, 5.01)),
        Err("電力超過(>300W)です".to_string())
    );
    assert!(ps.is_empty());
}

#[test]
fn deleting_removes_all_with_the_identifier() {
    let ps = vec![
        preset("a", "1", 1.0, 1.0),
        preset("b", "2", 1.0, 1.0),
        preset("a", "3", 1.0, 1.0),
        preset("c", "4", 1.0, 1.0),
    ];
    let rest = preset_delete(ps, &"a".to_string());
    assert_eq!(ids(&rest), vec!["b", "c"]);
    let rest = preset_delete(rest, &"zzz".to_string());
    assert_eq!(ids(&rest), vec!["b", "c"]);
}

#[test]
fn importing_passes_over_what_is_unfit() {
    let mut ps = vec![preset("a", "old", 1.0, 1.0)];
    let incoming = vec![
        preset("b", "new", 2.0, 1.0),
        preset("", "no id", 2.0, 1.0),
        preset("c", "too high", 99.0, 1.0),
        preset("a", "newer", 3.0, 1.0),
        preset("d", "strong", 60.0, 10.0),
    ];
    assert_eq!(preset_import(&mut ps, incoming), Ok(()));
    assert_eq!(ids(&ps), vec!["a", "b", "d"]);
    assert_eq!(ps[0].name, "newer");
    assert_eq!(
        preset_import(&mut ps, vec![preset("", "x", 1.0, 1.0)]),
        Err("取込めるプリセットがありません".to_string())
    );
    assert_eq!(
        preset_import(&mut ps, Vec::new()),
        Err("取込めるプリセットがありません".to_string())
    );
    assert_eq!(ids(&ps), vec!["a", "b", "d"]);
}

#[test]
fn imports_in_order() {
    let mut ps = vec![preset("x", "1", 1.0, 1.0), preset("y", "1", 1.0, 1.0)];
    let incoming = vec![
        preset("n", "1", 1.0, 1.0),
        preset("y", "2", 1.0, 1.0),
        preset("m", "1", 1.0, 1.0),
        preset("n", "2", 1.0, 1.0),
        preset("n", "unfit", 99.0, 1.0),
        preset("y", "3", 1.0, 1.0),
    ];
    assert_eq!(preset_import(&mut ps, incoming), Ok(()));
    assert_eq!(ids(&ps), vec!["x", "y", "n", "m"]);
    let found: Vec<String> = ps.iter().map(|p| p.name.clone()).collect();
    assert_eq!(found, vec!["1", "3", "2", "1"]);
}

#[test]
fn texts_to_import_and_to_load() {
    assert!(is_list(" \r\n\t[{}]"));
    assert!(is_list("["));
    assert!(!is_list("{\"id\":\"[\"}"));
    assert!(!is_list("  "));
    assert!(!is_list(""));
    assert!(nothing_stored(&None));
    assert!(nothing_stored(&Some(" \n".to_string())));
    assert!(!nothing_stored(&Some("[]".to_string())));
}

#[test]
fn log_names() {
    let bad = "ファイル名が不正です".to_string();
    for name in ["../x.csv", "a/b.csv", "a\\b.csv", "a..csv"] {
        assert_eq!(log_start(name).err(), Some(bad.clone()));
    }
    assert_eq!(log_start("x.txt").err(), Some("拡張子は.csvのみ".to_string()));
    assert_eq!(log_start("x.CSV").err(), Some("拡張子は.csvのみ".to_string()));
    let mut st = log_start("spe6103_20240101_120000.csv").ok().unwrap();
    assert_eq!(st.file(), "spe6103_20240101_120000.csv");
    assert_eq!(st.rot(), 0);
    let first = st.appended("");
    assert_eq!(first.bytes, LOG_HEADER.len() as u64 + 1);
    assert_eq!(first.lines, 1);
    assert!(log_start(".csv").is_ok());
}

#[test]
fn log_counts_lines_and_bytes() {
    let mut slot = log_start("a.csv").ok();
    let mut size = LOG_HEADER.len() as u64;
    for (i, line) in ["1,2,3", "", "出力"].iter().enumerate() {
        assert_eq!(log_append(&mut slot, line), Ok(None));
        let status = slot.as_mut().unwrap().appended(line);
        size += line.len() as u64 + 1;
        assert_eq!(status.file, "a.csv");
        assert_eq!(status.lines, i as u64 + 1);
        assert_eq!(status.bytes, size);
        assert!(!status.rotated);
    }
    assert_eq!(log_stop(&mut slot, "/logs/a.csv"), Ok("/logs/a.csv (3行)".to_string()));
    assert!(slot.is_none());
    assert_eq!(log_line("x"), "x\n");
}

#[test]
fn log_begins_a_new_file_when_full() {
    let mut slot = log_start("a.csv").ok();
    let room = LOG_SIZE_LIMIT - LOG_HEADER.len() as u64;
    let fits = "x".repeat(room as usize - 1);
    assert_eq!(log_append(&mut slot, &fits), Ok(None));
    assert_eq!(slot.as_mut().unwrap().appended(&fits).bytes, LOG_SIZE_LIMIT);
    assert_eq!(log_append(&mut slot, ""), Ok(Some("a_r1.csv".to_string())));
    {
        let st = slot.as_mut().unwrap();
        // The new file could not be made: the old one is still there.
        assert_eq!(st.file(), "a.csv");
        assert_eq!(st.rot(), 1);
    }
    assert_eq!(log_append(&mut slot, ""), Ok(Some("a_r2.csv".to_string())));
    let st = slot.as_mut().unwrap();
    st.rotated("a_r2.csv".to_string());
    let status = st.appended("");
    assert_eq!(status.file, "a_r2.csv");
    assert_eq!(status.lines, 1);
    assert_eq!(status.bytes, LOG_HEADER.len() as u64 + 1);
    assert!(status.rotated);
    // The next line goes into the file that is there.
    assert_eq!(log_append(&mut slot, "z"), Ok(None));
    assert!(!slot.as_mut().unwrap().appended("z").rotated);
    let long = "y".repeat(LOG_SIZE_LIMIT as usize);
    assert_eq!(log_append(&mut slot, &long), Ok(Some("a_r2_r3.csv".to_string())));
}

#[test]
fn log_stems() {
    for (name, next) in [(".csv", ".csv_r1.csv"), ("a.b.csv", "a.b_r1.csv")] {
        let mut slot = log_start(name).ok();
        let long = "y".repeat(LOG_SIZE_LIMIT as usize);
        assert_eq!(log_append(&mut slot, &long), Ok(Some(next.to_string())));
    }
}

#[test]
fn following_log_files_have_names_of_their_own() {
    for name in ["a.csv", ".csv", "a_r1.csv", "_r1.csv", "a.b.csv"] {
        let mut slot = log_start(name).ok();
        let mut names = vec![name.to_string()];
        let long = "y".repeat(LOG_SIZE_LIMIT as usize);
        for _ in 0..12 {
            let next = log_append(&mut slot, &long).unwrap().unwrap();
            assert!(log_start(&next).is_ok(), "{next}");
            assert!(!names.contains(&next), "{next}");
            names.push(next.clone());
            slot.as_mut().unwrap().rotated(next);
        }
    }
}

#[test]
fn log_that_was_not_started() {
    let mut slot = log_slot();
    let none = "ログは開始されていません".to_string();
    assert_eq!(log_append(&mut slot, "x"), Err(none.clone()));
    assert_eq!(log_stop(&mut slot, ""), Err(none));
}

#[test]
fn usb_ports_come_first() {
    let mut ports: Vec<String> = ["COM1", "/dev/ttyS0", "/dev/ttyUSB1", "/dev/cu.wchusbserial10", "COM7", "/dev/ttyUSB0"]
        .iter()
        .map(|s| s.to_string())
        .collect();
    let want = vec!["/dev/ttyUSB1", "/dev/cu.wchusbserial10", "/dev/ttyUSB0", "COM1", "/dev/ttyS0", "COM7"];
    assert_eq!(list_serial_ports(ports.clone()), want);
    sort_ch340_first(&mut ports);
    assert_eq!(ports, want);
    sort_ch340_first(&mut ports);
    assert_eq!(ports, want);
    assert!(is_usb_name("usb"));
    assert!(!is_usb_name("USB"));
}

#[test]
fn scan_finds_the_first_supply() {
    let ports: Vec<String> = ["COM1", "USB2", "USB3", "COM4"].iter().map(|s| s.to_string()).collect();
    let mut scan = psu_scan(ports, Some(700));
    let mut first = scan.next().unwrap();
    assert_eq!(first.port(), "USB2");
    assert_eq!(first.timeout_ms(), 700);
    assert_eq!(first.next(), Some(&Step::Pause(300)));
    first.done();
    assert_eq!(first.next(), Some(&Step::Ask("*IDN?".to_string())));
    assert_eq!(first.replied("?".to_string()), Ok(()));
    assert_eq!(first.next(), None);
    assert_eq!(first.reply(0), "?");
    assert_eq!(scan.tried(None), None);
    assert_eq!(scan.next().unwrap().port(), "USB3");
    assert_eq!(scan.tried(Some("OWON,XDM1041".to_string())), None);
    assert_eq!(scan.next().unwrap().port(), "COM1");
    let hit = scan.tried(Some("OWON,SPE6103,2233".to_string())).unwrap();
    assert_eq!(hit.port, "COM1");
    assert_eq!(hit.idn, "OWON,SPE6103,2233");
}

#[test]
fn scan_that_finds_nothing() {
    let mut scan = psu_scan(vec!["COM1".to_string()], None);
    assert_eq!(scan.next().unwrap().timeout_ms(), 1200);
    assert_eq!(scan.tried(None), None);
    assert!(scan.next().is_none());
    assert_eq!(
        not_found(),
        "SPE6103が見つかりません。本体電源ON＋USB接続を確認してください。"
    );
    assert!(psu_scan(Vec::new(), None).next().is_none());
}
