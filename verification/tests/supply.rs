//! The operations on the supply, carried through with a supply that is played
//! here.

use spe6103::limits::Quantity;
use spe6103::psu::{
    apply_result, command_line, device_snapshot_json, open_error, protect_result, psu_apply, psu_identify, psu_outp,
    psu_poll, psu_protect, psu_query, reply_text, scpi_apply, scpi_outp, snapshot, step_line, write_error, ApplyResult,
    ProtectResult, Snapshot, BAUD, COMMAND_TIMEOUT_MS, POLL_TIMEOUT_MS,
};
use spe6103::scpi::{ensure_spe6103, failure_text, LineReader, Step, Transaction, Turn};

fn quantity(x: f64) -> Quantity {
    Quantity {
        bits: x.to_bits(),
        shown: format!("{x}"),
    }
}

/// A supply, or another device, on a serial line.
struct Device {
    idn: String,
    volt: String,
    curr: String,
    ovp: String,
    ocp: String,
    on: bool,
    heard: Vec<String>,
}

impl Device {
    fn named(idn: &str) -> Device {
        Device {
            idn: idn.to_string(),
            volt: "8.400".to_string(),
            curr: "1.250".to_string(),
            ovp: "61.000".to_string(),
            ocp: "10.200".to_string(),
            on: true,
            heard: Vec::new(),
        }
    }

    /// Hears a line, and says the bytes of its reply.
    fn hear(&mut self, line: &str) -> Vec<u8> {
        self.heard.push(line.to_string());
        let line = line.strip_suffix('\n').expect("line feed");
        let reply = match line {
            "*IDN?" => self.idn.clone(),
            "VOLT?" => self.volt.clone(),
            "CURR?" => self.curr.clone(),
            "VOLT:LIM?" => self.ovp.clone(),
            "CURR:LIM?" => self.ocp.clone(),
            "MEAS:VOLT?" => "8.398".to_string(),
            "MEAS:CURR?" => "0.500".to_string(),
            "MEAS:POW?" => "4.199".to_string(),
            "MEAS:ALL:INFO?" => "8.398,0.500,4.199,OFF,OFF,OFF,1".to_string(),
            "OUTP?" => if self.on { "ON" } else { "OFF" }.to_string(),
            _ => {
                if let Some(v) = line.strip_prefix("VOLT:LIM ") {
                    self.ovp = v.to_string();
                } else if let Some(v) = line.strip_prefix("CURR:LIM ") {
                    self.ocp = v.to_string();
                } else if let Some(v) = line.strip_prefix("VOLT ") {
                    self.volt = v.to_string();
                } else if let Some(v) = line.strip_prefix("CURR ") {
                    self.curr = v.to_string();
                } else if let Some(v) = line.strip_prefix("OUTP ") {
                    self.on = v == "ON";
                } else {
                    return Vec::new();
                }
                return Vec::new();
            }
        };
        format!("{reply}\r\n").into_bytes()
    }
}

fn read(bytes: &[u8]) -> Result<String, String> {
    let mut reader = LineReader::new();
    for b in bytes {
        assert!(reader.read_line(Turn::Nothing).is_none());
        if let Some(r) = reader.read_line(Turn::Byte(*b)) {
            return r;
        }
    }
    reader.read_line(Turn::Overdue).expect("the time is over")
}

/// Carries a transaction through; gives it back with the pauses that it made.
fn run(mut t: Transaction, device: &mut Device) -> Result<(Transaction, u64), String> {
    let mut paused = 0;
    while let Some(step) = t.next() {
        let line = step_line(step);
        match step {
            Step::Pause(ms) => {
                paused += ms;
                t.done();
            }
            Step::Send { .. } => {
                device.hear(&line.expect("a command"));
                t.done();
            }
            Step::Guard | Step::Ask(_) => {
                let reply = read(&device.hear(&line.expect("a query")))?;
                t.replied(reply)?;
            }
        }
    }
    Ok((t, paused))
}

/// The messages on commands that could not be written.
fn write_errors(mut t: Transaction) -> Vec<String> {
    let mut messages = Vec::new();
    while let Some(step) = t.next() {
        match step {
            Step::Send { .. } => {
                messages.push(write_error(step, "gone"));
                t.done();
            }
            Step::Pause(_) => t.done(),
            _ => t.replied("SPE6103".to_string()).expect("a reply"),
        }
    }
    messages
}

fn supply() -> Device {
    Device::named("OWON,SPE6103,23450123,FV:V2.1.0")
}

#[test]
fn setting_voltage_and_current() {
    let mut d = supply();
    let t = psu_apply("COM7", &quantity(12.3456), &quantity(2.0), None).ok().unwrap();
    assert_eq!(t.port(), "COM7");
    assert_eq!(t.timeout_ms(), 1500);
    let (t, paused) = run(t, &mut d).ok().unwrap();
    assert_eq!(
        d.heard,
        vec!["*IDN?\n", "VOLT 12.346\n", "CURR 2.000\n", "VOLT?\n", "CURR?\n"]
    );
    assert_eq!(paused, 600);
    assert_eq!(
        apply_result(&t),
        ApplyResult {
            volt: "12.346".to_string(),
            curr: "2.000".to_string()
        }
    );
}

#[test]
fn settings_out_of_limits_begin_nothing() {
    assert_eq!(
        scpi_apply("COM7", &quantity(60.5), &quantity(1.0), 100).err(),
        Some("V範囲外: 60.5 (0-60V)".to_string())
    );
    assert_eq!(
        psu_apply("COM7", &quantity(1.0), &quantity(11.0), None).err(),
        Some("A範囲外: 11 (0-10A)".to_string())
    );
    assert_eq!(
        psu_apply("COM7", &quantity(50.0), &quantity(8.0), Some(1)).err(),
        Some("電力超過: 50V×8A=400.0W (>300W)".to_string())
    );
    assert_eq!(
        psu_protect("COM7", &quantity(60.5), &quantity(1.0), None).err(),
        Some("OVP範囲外: 60.5 (0-60V)".to_string())
    );
    assert_eq!(
        psu_protect("COM7", &quantity(60.0), &quantity(10.5), None).err(),
        Some("OCP範囲外: 10.5 (0-10A)".to_string())
    );
}

#[test]
fn setting_the_protection_limits() {
    let mut d = supply();
    let t = psu_protect("COM7", &quantity(60.0), &quantity(10.0), Some(900)).ok().unwrap();
    assert_eq!(t.timeout_ms(), 900);
    let (t, paused) = run(t, &mut d).ok().unwrap();
    assert_eq!(
        d.heard,
        vec!["*IDN?\n", "VOLT:LIM 60.000\n", "CURR:LIM 10.000\n", "VOLT:LIM?\n", "CURR:LIM?\n"]
    );
    assert_eq!(paused, 600);
    assert_eq!(
        protect_result(&t),
        ProtectResult {
            ovp: "60.000".to_string(),
            ocp: "10.000".to_string()
        }
    );
}

#[test]
fn switching_the_output() {
    let mut d = supply();
    let (t, paused) = run(psu_outp("COM7", false, None), &mut d).ok().unwrap();
    assert_eq!(d.heard, vec!["*IDN?\n", "OUTP OFF\n", "OUTP?\n"]);
    assert_eq!(paused, 500);
    assert_eq!(reply_text(&t), "OFF");
    let (t, _) = run(scpi_outp("COM7", true, 1500), &mut d).ok().unwrap();
    assert_eq!(reply_text(&t), "ON");
}

#[test]
fn strangers_hear_nothing_but_the_query_for_their_name() {
    let wrong = "SPE6103ではありません: OWON,XDM1041,1";
    let all = vec![
        psu_identify("COM7", None),
        psu_apply("COM7", &quantity(1.0), &quantity(1.0), None).ok().unwrap(),
        psu_protect("COM7", &quantity(1.0), &quantity(1.0), None).ok().unwrap(),
        psu_outp("COM7", true, None),
        psu_outp("COM7", false, None),
    ];
    for t in all {
        let mut d = Device::named("OWON,XDM1041,1");
        assert_eq!(run(t, &mut d).err(), Some(wrong.to_string()));
        assert_eq!(d.heard, vec!["*IDN?\n"]);
    }
}

#[test]
fn silent_devices_hear_nothing_but_the_query_for_their_name() {
    let mut t = psu_outp("COM7", true, None);
    t.done();
    assert_eq!(t.next(), Some(&Step::Guard));
    assert_eq!(read(b"OWON,SPE61"), Err("timeout waiting for reply".to_string()));
    assert_eq!(t.next(), Some(&Step::Guard));
}

#[test]
fn finding_out_whether_it_is_the_supply() {
    let mut d = supply();
    let (t, paused) = run(psu_identify("COM7", None), &mut d).ok().unwrap();
    assert_eq!(d.heard, vec!["*IDN?\n"]);
    assert_eq!(paused, 200);
    assert!(t.next().is_none());
    assert_eq!(ensure_spe6103("SPE6103".to_string()), Ok("SPE6103".to_string()));
    assert_eq!(
        ensure_spe6103("SPE610".to_string()),
        Err("SPE6103ではありません: SPE610".to_string())
    );
}

#[test]
fn one_query() {
    let mut d = supply();
    let t = psu_query("COM7", "MEAS:POW?", None);
    assert_eq!(t.timeout_ms(), COMMAND_TIMEOUT_MS);
    let (t, paused) = run(t, &mut d).ok().unwrap();
    assert_eq!(d.heard, vec!["MEAS:POW?\n"]);
    assert_eq!(paused, 0);
    assert_eq!(reply_text(&t), "4.199");
}

#[test]
fn reading_the_state() {
    let mut d = supply();
    let t = psu_poll("COM7", None);
    assert_eq!(t.timeout_ms(), POLL_TIMEOUT_MS);
    let (t, paused) = run(t, &mut d).ok().unwrap();
    assert_eq!(
        d.heard,
        vec![
            "VOLT?\n",
            "CURR?\n",
            "VOLT:LIM?\n",
            "CURR:LIM?\n",
            "MEAS:VOLT?\n",
            "MEAS:CURR?\n",
            "MEAS:POW?\n",
            "MEAS:ALL:INFO?\n",
            "OUTP?\n"
        ]
    );
    assert_eq!(paused, 0);
    let s = snapshot(&t);
    assert_eq!(
        s,
        Snapshot {
            set_volt: "8.400".to_string(),
            set_curr: "1.250".to_string(),
            lim_volt: "61.000".to_string(),
            lim_curr: "10.200".to_string(),
            meas_volt: "8.398".to_string(),
            meas_curr: "0.500".to_string(),
            meas_pow: "4.199".to_string(),
            info: "8.398,0.500,4.199,OFF,OFF,OFF,1".to_string(),
            outp: "ON".to_string(),
        }
    );
    assert_eq!(
        device_snapshot_json(&s),
        "{\"set_volt\":\"8.400\",\"set_curr\":\"1.250\",\"lim_volt\":\"61.000\",\"lim_curr\":\"10.200\",\"meas_volt\":\"8.398\",\"meas_curr\":\"0.500\",\"meas_pow\":\"4.199\",\"info\":\"8.398,0.500,4.199,OFF,OFF,OFF,1\",\"outp\":\"ON\"}"
    );
}

#[test]
fn a_state_reads_back_from_its_json() {
    let odd = "a\"b\\c\r\nd\u{7f}出力";
    let s = Snapshot {
        set_volt: odd.to_string(),
        set_curr: "".to_string(),
        lim_volt: "\\".to_string(),
        lim_curr: "\"".to_string(),
        meas_volt: "\\n".to_string(),
        meas_curr: "{}".to_string(),
        meas_pow: "\",\"info\":\"x".to_string(),
        info: "\n\n".to_string(),
        outp: odd.to_string(),
    };
    let v: serde_json::Value = serde_json::from_str(&device_snapshot_json(&s)).unwrap();
    assert_eq!(v["set_volt"], odd);
    assert_eq!(v["set_curr"], "");
    assert_eq!(v["lim_volt"], "\\");
    assert_eq!(v["lim_curr"], "\"");
    assert_eq!(v["meas_volt"], "\\n");
    assert_eq!(v["meas_curr"], "{}");
    assert_eq!(v["meas_pow"], "\",\"info\":\"x");
    assert_eq!(v["info"], "\n\n");
    assert_eq!(v["outp"], odd);
    assert_eq!(v.as_object().unwrap().len(), 9);
}

#[test]
fn replies_are_trimmed_and_decoded() {
    assert_eq!(read(b" 8.400 \r\n"), Ok("8.400".to_string()));
    assert_eq!(read(b"\r\n"), Ok("".to_string()));
    assert_eq!(read(b"one\r\ntwo\r\n"), Ok("one".to_string()));
    assert_eq!(read(b"\xffX\xe2\n"), Ok("\u{fffd}X\u{fffd}".to_string()));
    assert_eq!(read("℃\n".as_bytes()), Ok("℃".to_string()));
}

#[test]
fn a_port_that_fails_ends_the_reading() {
    let mut reader = LineReader::new();
    assert!(reader.read_line(Turn::Byte(65)).is_none());
    assert_eq!(
        reader.read_line(Turn::Failed("gone".to_string())),
        Some(Err("read: gone".to_string()))
    );
}

#[test]
fn messages_on_failures() {
    assert_eq!(open_error("COM7", "busy"), "open COM7: busy");
    assert_eq!(failure_text("flush", "gone"), "flush: gone");
    assert_eq!(write_error(&Step::Guard, "gone"), "write: gone");
    assert_eq!(write_error(&Step::Ask("VOLT?".to_string()), "gone"), "write: gone");
    let t = psu_apply("COM7", &quantity(1.0), &quantity(1.0), None).ok().unwrap();
    assert_eq!(write_errors(t), vec!["write VOLT: gone", "write CURR: gone"]);
    let t = psu_protect("COM7", &quantity(1.0), &quantity(1.0), None).ok().unwrap();
    assert_eq!(write_errors(t), vec!["write OVP: gone", "write OCP: gone"]);
    assert_eq!(write_errors(psu_outp("COM7", true, None)), vec!["write: gone"]);
    assert_eq!(step_line(&Step::Pause(1)), None);
    assert_eq!(step_line(&Step::Guard), Some("*IDN?\n".to_string()));
    assert_eq!(command_line("OUTP?"), "OUTP?\n");
    assert_eq!(BAUD, 115200);
}
