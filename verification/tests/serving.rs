//! The server, from the bytes of a request to the bytes of the reply, with a
//! supply that is played here.

use std::collections::hash_map::DefaultHasher;
use std::hash::{Hash, Hasher};

use spe6103::access::{
    carry_out, conclude, decide_apply, decide_outp, handle_client, outp_reply, qr_reply, status_reply, Handled, Next,
    SrvCfg,
};
use spe6103::http::{
    announced, authed, http_resp, parse_head, split_target, Arrival, Headers, HttpReader, Request, Response, Wanted,
    BODY_LIMIT, HEAD_LIMIT,
};
use spe6103::json::{escape_json, object_of_one, object_text, Member};
use spe6103::limits::Quantity;
use spe6103::outside::{drawn_or_message, qr_svg, QR_BYTE_LIMIT, SVG_START};
use spe6103::page::{controls_html, page_html};
use spe6103::psu::{psu_identify, reply_text, scpi_outp, step_line};
use spe6103::scpi::{Step, Transaction};
use spe6103::server::{
    epoch_secs, lan_ip, make_token, ops_log, public_url_text, server_info, server_log_name, server_plan, server_slot,
    server_start, server_started, server_status, server_stop, token_text, Admission, Running, ServerInfo,
};

/// An SPE6103 on a serial line.
struct Supply {
    volt: String,
    curr: String,
    on: bool,
}

impl Supply {
    fn new() -> Supply {
        Supply {
            volt: "8.400".to_string(),
            curr: "1.250".to_string(),
            on: true,
        }
    }

    fn hear(&mut self, line: &str) -> String {
        let line = line.strip_suffix('\n').expect("line feed");
        if let Some(v) = line.strip_prefix("VOLT ") {
            self.volt = v.to_string();
        } else if let Some(v) = line.strip_prefix("CURR ") {
            self.curr = v.to_string();
        } else if let Some(v) = line.strip_prefix("OUTP ") {
            self.on = v == "ON";
        }
        match line {
            "*IDN?" => "OWON,SPE6103,23450123,FV:V2.1.0".to_string(),
            "VOLT?" => self.volt.clone(),
            "CURR?" => self.curr.clone(),
            "OUTP?" => if self.on { "ON" } else { "OFF" }.to_string(),
            _ => "0.000".to_string(),
        }
    }

    fn run(&mut self, mut t: Transaction) -> Result<Transaction, String> {
        while let Some(step) = t.next() {
            let reply = match step_line(step) {
                Some(line) => self.hear(&line),
                None => String::new(),
            };
            match step {
                Step::Pause(_) | Step::Send { .. } => t.done(),
                Step::Guard | Step::Ask(_) => t.replied(reply)?,
            }
        }
        Ok(t)
    }
}

/// The transaction by which the supply was found on its port.
fn identified() -> Transaction {
    Supply::new().run(psu_identify("COM7", None)).expect("the supply")
}

fn admitted(level: u8) -> Admission {
    server_start(level, true, &server_slot()).expect("a level")
}

/// Reads a request from all that a client sends before it closes its end.
fn receive(sent: &[u8]) -> Option<Request> {
    let mut reader = HttpReader::new();
    let mut at = 0;
    loop {
        let overdue = at >= sent.len();
        let n = match reader.wants(overdue) {
            Wanted::OneByte => 1,
            Wanted::UpTo(n) => n,
            Wanted::Nothing => break,
        };
        let n = n.min(7).min(sent.len() - at);
        let arrival = if n == 0 {
            Arrival::Closed
        } else {
            Arrival::Bytes(sent[at..at + n].to_vec())
        };
        at += n;
        reader = reader.read_http(arrival);
    }
    reader.into_request()
}

struct Server {
    cfg: SrvCfg,
    supply: Supply,
    ops: u64,
    log: Vec<String>,
}

impl Server {
    fn new(port: u16, level: u8, token: &str) -> Server {
        Server {
            cfg: SrvCfg {
                device: "COM7".to_string(),
                level,
                token: token.to_string(),
                public: format!("http://127.0.0.1:{port}/"),
            },
            supply: Supply::new(),
            ops: 0,
            log: Vec::new(),
        }
    }

    fn note(&mut self, h: &Handled) {
        if let Some(note) = &h.note {
            let line = ops_log(&mut self.ops, 1700000000, "192.168.1.5:50000", note);
            self.log.push(line);
        }
    }

    fn http_raw(&mut self, req: &str) -> String {
        let req = match receive(req.as_bytes()) {
            Some(r) => r,
            None => return String::new(),
        };
        let first = handle_client(&self.cfg, &req);
        self.note(&first);
        let last = match carry_out(&self.cfg, &first.next) {
            None => Handled { note: None, next: first.next },
            Some(begun) => {
                let outcome = match begun {
                    Ok(t) => self.supply.run(t),
                    Err(e) => Err(e),
                };
                conclude(first.next, outcome)
            }
        };
        self.note(&last);
        match last.next {
            Next::Reply(r) => http_resp(&r),
            other => panic!("{other:?}"),
        }
    }

    fn get(&mut self, target: &str) -> String {
        self.http_raw(&format!("GET {target} HTTP/1.1\r\nHost: x\r\nConnection: close\r\n\r\n"))
    }

    fn post(&mut self, target: &str, body: &str) -> String {
        self.http_raw(&format!(
            "POST {target} HTTP/1.1\r\nHost: x\r\nContent-Type: application/json\r\nContent-Length: {}\r\nConnection: close\r\n\r\n{body}",
            body.len()
        ))
    }
}

#[test]
fn lv1_status_and_off_guard() {
    let mut srv = Server::new(18081, 1, "unused");
    let st = srv.get("/api/status");
    assert!(st.starts_with("HTTP/1.1 200"), "status: {st}");
    assert!(st.contains("meas_volt"), "body: {st}");
    // Level 1 does not switch the output on.
    let deny = srv.post("/api/outp", "{\"on\":true}");
    assert!(deny.starts_with("HTTP/1.1 403"), "deny: {deny}");
    // Level 1 switches the output off.
    let off = srv.post("/api/outp", "{\"on\":false}");
    let off_body = off.clone();
    let back = srv.supply.run(scpi_outp("COM7", true, 1500)).expect("restore ON");
    let back = reply_text(&back);
    assert!(off.starts_with("HTTP/1.1 200"), "off: {off_body}");
    assert!(off_body.contains("OFF"), "off: {off_body}");
    assert!(back.contains("ON"), "restore: {back}");
    assert_eq!(
        srv.log,
        vec![
            "[1700000000] 192.168.1.5:50000 DENY outp ON (Lv1はOFFのみ)",
            "[1700000000] 192.168.1.5:50000 outp on=false -> OFF"
        ]
    );
    assert_eq!(srv.ops, 2);
}

#[test]
fn lv2_token_flow() {
    let mut srv = Server::new(18082, 2, "TOK123");
    // Without the token nothing is applied.
    let deny = srv.post("/api/apply", "{\"volt\":8.4,\"curr\":1.25}");
    assert!(deny.starts_with("HTTP/1.1 403"), "deny: {deny}");
    // With the token it is.
    let ok = srv.post("/api/apply?token=TOK123", "{\"volt\":8.4,\"curr\":1.25}");
    assert!(ok.starts_with("HTTP/1.1 200"), "ok: {ok}");
    assert!(ok.contains("8.400"), "ok: {ok}");
    // Out of range.
    let bad = srv.post("/api/apply?token=TOK123", "{\"volt\":61.0,\"curr\":1.0}");
    assert!(bad.starts_with("HTTP/1.1 400"), "bad: {bad}");
    assert!(bad.contains("{\"error\":\"V範囲外: 61 (0-60V)\"}"), "bad: {bad}");
    let bad = srv.post("/api/apply?token=TOK123", "{\"volt\":60,\"curr\":6}");
    assert!(bad.starts_with("HTTP/1.1 400"), "bad: {bad}");
    assert_eq!(
        srv.log,
        vec![
            "[1700000000] 192.168.1.5:50000 DENY apply (Lv2+token required)",
            "[1700000000] 192.168.1.5:50000 apply 8.4V 1.25A"
        ]
    );
}

#[test]
fn server_commands_roundtrip() {
    let mut slot: Option<Running> = server_slot();
    // Level 2 has to be allowed in so many words.
    assert!(server_start(2, false, &slot).is_err());
    let admission = server_start(1, false, &slot).expect("start");
    let supply = identified();
    let mut count = 0;
    let token = make_token(Some(1700000000123456789), 4242, &mut count);
    let lan = lan_ip(Some("192.168.1.2"));
    let plan = server_plan(18084, &admission, &lan, &token, &supply).ok().expect("plan");
    server_started(&mut slot, &plan);
    let info = server_info(&plan, &lan, 18084, "logs/server_1700000000.log");
    assert!(info.url.contains("18084"), "url: {}", info.url);
    assert!(info.qr.contains("<svg"), "qr");
    assert_eq!(info.token, "");
    let mut ops = 0;
    ops_log(&mut ops, epoch_secs(Some(1700000000)), "server", &plan.note);
    let st = server_status(&slot, ops);
    assert!(st.running && st.level == 1, "status");
    assert_eq!(st.url, info.url);
    assert_eq!(st.ops, 1);
    assert_eq!(
        server_start(0, false, &slot),
        Err("サーバー起動中です".to_string())
    );
    let mut srv = Server::new(18084, 1, &token);
    srv.cfg = plan.cfg;
    let dash = srv.get("/");
    assert!(dash.contains("出力OFF"), "dash Lv1");
    let done = server_stop(&mut slot, &info.log, ops).expect("stop");
    assert!(done.contains("ops)"), "stop: {done}");
    assert_eq!(done, "logs/server_1700000000.log (1ops)");
    assert!(!server_status(&slot, 7).running);
    assert_eq!(
        server_stop(&mut slot, "", 0),
        Err("サーバーは起動していません".to_string())
    );
}

#[test]
fn lv0_readonly() {
    let mut srv = Server::new(18083, 0, "unused");
    let st = srv.get("/api/status");
    assert!(st.starts_with("HTTP/1.1 200"), "status: {st}");
    let dash = srv.get("/");
    assert!(dash.contains("監視のみ"), "dash readonly");
    let deny = srv.post("/api/outp", "{\"on\":false}");
    assert!(deny.starts_with("HTTP/1.1 403"), "deny: {deny}");
    assert!(srv.supply.on);
    assert_eq!(srv.log, vec!["[1700000000] 192.168.1.5:50000 DENY outp (Lv0)"]);
}

#[test]
fn lv2_switches_with_the_token_alone() {
    let mut srv = Server::new(1, 2, "T");
    assert!(srv.post("/api/outp", "{\"on\":false}").starts_with("HTTP/1.1 403 ERR\r\n"));
    assert!(srv.supply.on);
    assert!(srv.post("/api/outp?x=1&token=T", "{\"on\":false}").starts_with("HTTP/1.1 200 OK\r\n"));
    assert!(!srv.supply.on);
    let with_field = "POST /api/outp HTTP/1.1\r\nX-TOKEN:  T \r\nContent-Length: 11\r\n\r\n{\"on\":true}";
    let r = srv.http_raw(with_field);
    assert!(r.ends_with("\r\n\r\n{\"outp\":\"ON\"}"), "{r}");
    assert!(srv.supply.on);
}

#[test]
fn bad_bodies() {
    let mut srv = Server::new(1, 2, "T");
    for body in ["", "{", "[]", "{\"on\":1}", "{\"ON\":true}", "null", "{\"on\":true} x"] {
        let r = srv.post("/api/outp?token=T", body);
        assert!(r.starts_with("HTTP/1.1 400 ERR\r\n"), "{body}: {r}");
        assert!(r.ends_with("\r\n\r\nbad body"), "{body}: {r}");
    }
    for body in ["", "{}", "{\"volt\":1}", "{\"curr\":1}", "{\"volt\":\"1\",\"curr\":1}", "[1,2]"] {
        let r = srv.post("/api/apply?token=T", body);
        assert!(r.starts_with("HTTP/1.1 400 ERR\r\n"), "{body}: {r}");
        assert!(r.ends_with("\r\n\r\nbad body"), "{body}: {r}");
    }
    assert_eq!(srv.ops, 0);
}

#[test]
fn numbers_in_bodies() {
    let mut srv = Server::new(1, 2, "T");
    let r = srv.post("/api/apply?token=T", "{\"volt\": 5, \"curr\": 1e-1}");
    assert!(r.ends_with("{\"volt\":\"5.000\",\"curr\":\"0.100\"}"), "{r}");
    let r = srv.post("/api/apply?token=T", "{\"volt\": -0.0, \"curr\": 0}");
    assert!(r.ends_with("{\"volt\":\"-0.000\",\"curr\":\"0.000\"}"), "{r}");
    let r = srv.post("/api/apply?token=T", "{\"volt\": 1e300, \"curr\": 0}");
    assert!(r.starts_with("HTTP/1.1 400 "), "{r}");
    assert_eq!(srv.log.len(), 2);
    assert!(srv.log[0].ends_with("apply 5V 0.1A"));
    assert!(srv.log[1].ends_with("apply -0V 0A"));
}

#[test]
fn the_other_places() {
    let mut srv = Server::new(8000, 1, "T");
    for target in ["/nothing", "/api/outp", "/api/status/"] {
        let r = srv.get(target);
        assert_eq!(
            r,
            "HTTP/1.1 404 ERR\r\nContent-Type: text/plain\r\nContent-Length: 9\r\nConnection: close\r\n\r\nnot found"
        );
    }
    assert!(srv.post("/", "").starts_with("HTTP/1.1 404 "));
    let r = srv.get("/qr?x");
    assert!(r.starts_with("HTTP/1.1 200 OK\r\nContent-Type: image/svg+xml\r\n"), "{r}");
    assert!(r.contains(SVG_START));
    let r = srv.http_raw("get /index.html?a HTTP/1.1\r\n\r\n");
    assert!(r.starts_with("HTTP/1.1 200 OK\r\nContent-Type: text/html; charset=utf-8\r\n"), "{r}");
    assert!(r.ends_with(&page_html(1)));
}

#[test]
fn a_supply_that_is_not_there() {
    let e = || Err("open COM7: gone \"x\"".to_string());
    let h = conclude(Next::Status, e());
    assert_eq!(
        h,
        Handled {
            note: None,
            next: Next::Reply(Response {
                code: 503,
                text: "ERR".to_string(),
                ctype: "application/json".to_string(),
                body: "{\"error\":\"open COM7: gone \\\"x\\\"\"}".to_string(),
            })
        }
    );
    assert_eq!(h, status_reply(Err("open COM7: gone \"x\"".to_string())));
    for next in [
        Next::Output { on: true },
        Next::Apply {
            volt: Quantity {
                bits: 0,
                shown: "0".to_string(),
            },
            curr: Quantity {
                bits: 0,
                shown: "0".to_string(),
            },
        },
    ] {
        match conclude(next, e()) {
            Handled {
                note: None,
                next: Next::Reply(r),
            } => {
                assert_eq!(r.code, 500);
                assert_eq!(r.body, "{\"error\":\"open COM7: gone \\\"x\\\"\"}");
            }
            other => panic!("{other:?}"),
        }
    }
    assert_eq!(
        outp_reply(true, Ok("ON".to_string())).note,
        Some("outp on=true -> ON".to_string())
    );
}

#[test]
fn decisions_by_level() {
    let pair = || {
        Some(Quantity {
            bits: 1.0f64.to_bits(),
            shown: "1".to_string(),
        })
    };
    for carries in [false, true] {
        for on in [false, true] {
            assert!(matches!(decide_outp(0, carries, Some(on)).next, Next::Reply(_)));
            assert_eq!(
                matches!(decide_outp(1, carries, Some(on)).next, Next::Output { on: false }),
                !on
            );
            assert_eq!(decide_outp(2, carries, Some(on)).next == Next::Output { on }, carries);
            for level in 0..3 {
                assert!(matches!(decide_outp(level, carries, None).next, Next::Reply(r) if r.code == 400));
            }
        }
        for level in 0..4 {
            assert_eq!(
                matches!(decide_apply(level, carries, pair(), pair()).next, Next::Apply { .. }),
                level == 2 && carries
            );
        }
    }
}

#[test]
fn heads() {
    let h = parse_head("post  /a?b=c HTTP/1.1\r\nHost: one\r\nno colon\r\nHOST : two:3 \r\n\r\nX: y\r\n");
    assert_eq!(h.method, "POST");
    assert_eq!(h.target, "/a?b=c");
    assert_eq!(h.headers.get("host").map(|s| s.as_str()), Some("two:3"));
    assert_eq!(h.headers.get("Host"), None);
    assert_eq!(h.headers.get("x"), None);
    let h = parse_head("\r\n\r\n");
    assert_eq!(h.method, "");
    assert_eq!(h.target, "/");
    let h = parse_head("straße\r\nÄ: 1\r\n\r\n");
    assert_eq!(h.method, "STRASSE");
    assert_eq!(h.headers.get("ä").map(|s| s.as_str()), Some("1"));
}

#[test]
fn announced_sizes() {
    for (value, n) in [
        ("0", 0),
        ("11", 11),
        ("+5", 5),
        ("-5", 0),
        ("x", 0),
        ("", 0),
        ("65536", BODY_LIMIT),
        ("65537", BODY_LIMIT),
        ("99999999999999999999999999", 0),
    ] {
        let mut h = Headers::new();
        h.insert("content-length".to_string(), value.to_string());
        assert_eq!(announced(&h), n, "{value}");
    }
    assert_eq!(announced(&Headers::new()), 0);
}

#[test]
fn requests_that_are_given_up() {
    assert!(receive(b"GET / HTTP/1.1\r\nHost: x\r\n").is_none());
    assert!(receive(b"").is_none());
    let reader = HttpReader::new().read_http(Arrival::Broken);
    assert_eq!(reader.wants(false), Wanted::Nothing);
    assert!(reader.into_request().is_none());
    let mut reader = HttpReader::new();
    for _ in 0..HEAD_LIMIT {
        assert_eq!(reader.wants(false), Wanted::OneByte);
        reader = reader.read_http(Arrival::Bytes(vec![65]));
    }
    assert_eq!(reader.wants(false), Wanted::OneByte);
    reader = reader.read_http(Arrival::Bytes(vec![65]));
    assert_eq!(reader.wants(false), Wanted::Nothing);
}

#[test]
fn requests_do_not_depend_on_the_pieces() {
    let sent = "post /a HTTP/1.1\r\nX-Token: T\r\nContent-Length: 6\r\n\r\nabcdef".as_bytes();
    for most in 1..8 {
        let mut reader = HttpReader::new();
        let mut at = 0;
        loop {
            let n = match reader.wants(false) {
                Wanted::OneByte => 1,
                Wanted::UpTo(n) => n.min(most),
                Wanted::Nothing => break,
            };
            reader = reader.read_http(Arrival::NotYet { overdue: false });
            reader = reader.read_http(Arrival::Bytes(sent[at..at + n].to_vec()));
            at += n;
        }
        assert_eq!(at, sent.len());
        let r = reader.into_request().unwrap();
        assert_eq!(r.method, "POST");
        assert_eq!(r.target, "/a");
        assert_eq!(r.headers.get("x-token").map(|s| s.as_str()), Some("T"));
        assert_eq!(r.body, b"abcdef");
    }
}

#[test]
fn bodies_that_come_in_part() {
    let head = "POST / HTTP/1.1\r\nContent-Length: 10\r\n\r\n";
    let r = receive(format!("{head}0123456789").as_bytes()).unwrap();
    assert_eq!(r.body, b"0123456789");
    let r = receive(format!("{head}0123456789more").as_bytes()).unwrap();
    assert_eq!(r.body, b"0123456789");
    let r = receive(format!("{head}012").as_bytes()).unwrap();
    assert_eq!(r.body, b"012");
    let mut reader = HttpReader::new();
    for b in head.as_bytes() {
        reader = reader.read_http(Arrival::NotYet { overdue: false });
        reader = reader.read_http(Arrival::Bytes(vec![*b]));
    }
    assert_eq!(reader.wants(true), Wanted::UpTo(10));
    reader = reader.read_http(Arrival::Bytes(b"abc".to_vec()));
    reader = reader.read_http(Arrival::NotYet { overdue: false });
    assert_eq!(reader.wants(true), Wanted::UpTo(7));
    let r = reader.read_http(Arrival::NotYet { overdue: true }).into_request().unwrap();
    assert_eq!(r.body, b"abc");
}

#[test]
fn targets_and_tokens() {
    assert_eq!(split_target("/a"), ("/a".to_string(), None));
    assert_eq!(split_target("/a?"), ("/a".to_string(), Some("".to_string())));
    assert_eq!(split_target("/a?b?c"), ("/a".to_string(), Some("b?c".to_string())));
    let none = Headers::new();
    assert!(authed("/?token=abc", &none, "abc"));
    assert!(authed("/?x&token=abc&y", &none, "abc"));
    assert!(!authed("/?token=ab", &none, "abc"));
    assert!(!authed("/?token=abcd", &none, "abc"));
    assert!(!authed("/?xtoken=abc", &none, "abc"));
    assert!(!authed("/token=abc", &none, "abc"));
    assert!(authed("/?token=", &none, ""));
    assert!(!authed("/", &none, ""));
    let mut h = Headers::new();
    h.insert("x-token".to_string(), "old".to_string());
    h.insert("x-token".to_string(), "abc".to_string());
    assert!(authed("/", &h, "abc"));
    assert!(!authed("/", &h, "old"));
    assert!(authed("/?token=old", &h, "old"));
}

#[test]
fn escaping() {
    for s in ["", "plain", "a\\b", "\"", "\r\n", "\\\"\r\n", "日本"] {
        let want = s
            .replace('\\', "\\\\")
            .replace('"', "\\\"")
            .replace('\r', "\\r")
            .replace('\n', "\\n");
        assert_eq!(escape_json(s), want);
        let back: String = serde_json::from_str(&format!("\"{}\"", escape_json(s))).unwrap();
        assert_eq!(back, s);
    }
    assert_eq!(escape_json("\t"), "\t");
    assert_eq!(object_of_one("error", "x"), "{\"error\":\"x\"}");
    assert_eq!(object_text(&[]), "{}");
    let m = [
        Member { key: "a", value: "1" },
        Member { key: "b", value: "\"" },
    ];
    assert_eq!(object_text(&m), "{\"a\":\"1\",\"b\":\"\\\"\"}");
}

#[test]
fn replies_give_the_size_in_bytes() {
    let r = Response {
        code: 200,
        text: "OK".to_string(),
        ctype: "text/plain".to_string(),
        body: "日本".to_string(),
    };
    assert_eq!(
        http_resp(&r),
        "HTTP/1.1 200 OK\r\nContent-Type: text/plain\r\nContent-Length: 6\r\nConnection: close\r\n\r\n日本"
    );
}

#[test]
fn pages_by_level() {
    for level in [0u8, 1, 2, 9, 10, 255] {
        let page = page_html(level);
        assert!(page.contains(&format!("<title>SPE6103 Lv{level}</title>")));
        assert!(page.contains(&format!("<h2>SPE6103 サーバー (Lv{level})</h2>")));
        assert!(page.contains(&format!("<div>{}</div>\n<script>", controls_html(level))));
        assert!(page.starts_with("<!doctype html>"));
        assert!(page.ends_with("setInterval(st, 2000); st();\n</script></body></html>"));
        assert!(!page.contains("%%"));
    }
    assert_eq!(controls_html(0), "<p>監視のみ</p>");
    assert!(!controls_html(1).contains("on:true"));
    assert!(controls_html(2).contains("on:true"));
    assert!(controls_html(2).contains("/api/apply"));
    assert_eq!(controls_html(3), controls_html(2));
}

#[test]
fn qr_codes() {
    let a = qr_svg("http://192.168.1.2:8000/").unwrap();
    let b = qr_svg("http://192.168.1.3:8000/").unwrap();
    assert!(a.starts_with(SVG_START));
    assert!(a.ends_with("</svg>"));
    assert_ne!(a, b);
    assert_eq!(a, qr_svg("http://192.168.1.2:8000/").unwrap());
    assert_eq!(
        drawn_or_message(Err("data too long".to_string())),
        Err("qr: data too long".to_string())
    );
    assert_eq!(drawn_or_message(Ok("i".to_string())), Ok("i".to_string()));
    assert!(matches!(qr_reply(Err("qr: e".to_string())).next, Next::Reply(r) if r.code == 500 && r.body == "qr: e"));
}

#[test]
fn every_short_text_is_drawn() {
    let mut texts = vec![
        String::new(),
        "0".repeat(QR_BYTE_LIMIT),
        "9".repeat(QR_BYTE_LIMIT),
        "A".repeat(QR_BYTE_LIMIT),
        "a".repeat(QR_BYTE_LIMIT),
        "aA0".repeat(24),
        "a0".repeat(36),
        "aA".repeat(36),
        "0A".repeat(36),
        "あ".repeat(24),
        "\u{8140}a".repeat(18),
        "\u{b000}".repeat(24),
        "é0".repeat(24),
        "🙂".repeat(18),
        "http://255.255.255.255:65535/?token=0123456789abcdef0123456789abcdef".to_string(),
    ];
    let mut state: u64 = 5;
    for _ in 0..60 {
        let mut s = String::new();
        loop {
            state = state.wrapping_mul(6364136223846793005).wrapping_add(1442695040888963407);
            let n = (state >> 33) as u32;
            let c = match n % 3 {
                0 => char::from_u32(n / 3 % 0x80),
                1 => char::from_u32(n / 3 % 0x800),
                _ => char::from_u32(n / 3 % 0x110000),
            };
            let c = c.unwrap_or('0');
            if s.len() + c.len_utf8() > QR_BYTE_LIMIT {
                break;
            }
            s.push(c);
        }
        texts.push(s);
    }
    for s in texts {
        assert!(s.len() <= QR_BYTE_LIMIT);
        assert!(qr_svg(&s).unwrap().starts_with(SVG_START), "{s:?}");
    }
}

#[test]
fn addresses() {
    assert_eq!(lan_ip(Some("10.0.0.7")), "10.0.0.7");
    assert_eq!(lan_ip(Some("127.0.1.1")), "127.0.0.1");
    assert_eq!(lan_ip(None), "127.0.0.1");
    assert_eq!(public_url_text("10.0.0.7", 8000, 1, "T"), "http://10.0.0.7:8000/");
    assert_eq!(public_url_text("10.0.0.7", 80, 2, "T"), "http://10.0.0.7:80/?token=T");
    assert_eq!(epoch_secs(Some(5)), 5);
    assert_eq!(epoch_secs(None), 0);
    assert_eq!(server_log_name(1700000000), "server_1700000000.log");
}

#[test]
fn tokens() {
    assert_eq!(
        token_text(0xdead_beef, 0x1_0123_4567_89ab_cdef),
        "00000000deadbeef0123456789abcdef"
    );
    let mut count = 0;
    let a = make_token(Some(5), 1, &mut count);
    assert_eq!(count, 1);
    let b = make_token(Some(5), 1, &mut count);
    assert_eq!(count, 2);
    assert_eq!(a.len(), 32);
    assert_ne!(a, b);
    assert!(a.ends_with("0000000000000005"));
    assert!(make_token(None, 1, &mut count).ends_with("0000000000000000"));
    // What is hashed are the three numbers, lowest byte first.
    let nanos: u128 = 1700000000123456789;
    let mut hasher = DefaultHasher::new();
    for bytes in [&nanos.to_le_bytes()[..], &4242u32.to_le_bytes()[..], &7u64.to_le_bytes()[..]] {
        hasher.write(bytes);
    }
    let mut seven = 7;
    let token = make_token(Some(nanos), 4242, &mut seven);
    assert_eq!(token, format!("{:016x}{:016x}", hasher.finish(), nanos as u64));
    if 1u16.to_ne_bytes() == 1u16.to_le_bytes() {
        let mut hasher = DefaultHasher::new();
        (nanos, 4242u32, 7u64).hash(&mut hasher);
        assert!(token.starts_with(&format!("{:016x}", hasher.finish())));
    }
    let mut count = u64::MAX;
    make_token(None, 1, &mut count);
    assert_eq!(count, 0);
    assert!(authed(&format!("/?token={a}"), &Headers::new(), &a));
    assert!(!authed(&format!("/?token={a}"), &Headers::new(), &b));
}

#[test]
fn starts_that_are_refused() {
    let slot = server_slot();
    assert_eq!(server_start(3, true, &slot), Err("levelは0-2".to_string()));
    assert_eq!(
        server_start(2, false, &slot),
        Err("Lv2フル操作には明示的な有効化が必要です".to_string())
    );
    assert!(server_start(2, true, &slot).is_ok());
    assert_eq!(
        server_plan(0, &admitted(1), "10.0.0.7", "T", &identified()).err(),
        Some("ポート番号を指定してください (例: 8000)".to_string())
    );
}

#[test]
fn plans() {
    let p = server_plan(8000, &admitted(2), "10.0.0.7", "T", &identified()).ok().unwrap();
    assert_eq!(p.bind, "0.0.0.0:8000");
    assert_eq!(p.note, "start Lv2 http://10.0.0.7:8000/?token=T");
    assert_eq!(p.cfg.device, "COM7");
    assert_eq!(p.cfg.token, "T");
    assert_eq!(
        server_info(&p, "10.0.0.7", 8000, "l"),
        ServerInfo {
            url: "http://10.0.0.7:8000/?token=T".to_string(),
            lan: "10.0.0.7".to_string(),
            port: 8000,
            level: 2,
            token: "T".to_string(),
            qr: qr_svg("http://10.0.0.7:8000/?token=T").unwrap(),
            log: "l".to_string(),
        }
    );
    // Below level 2 the token is told to nobody.
    let p = server_plan(8000, &admitted(1), "10.0.0.7", "T", &identified()).ok().unwrap();
    let q = server_plan(8000, &admitted(1), "10.0.0.7", "U", &identified()).ok().unwrap();
    assert_eq!(p.qr, q.qr);
    assert_eq!(server_info(&p, "10.0.0.7", 8000, "l").token, "");
    let mut ops = 41;
    assert_eq!(ops_log(&mut ops, 9, "server", &p.note), "[9] server start Lv1 http://10.0.0.7:8000/");
    assert_eq!(ops, 42);
}
