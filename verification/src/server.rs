//! Starting and stopping the server, its address, its token and its log.

use std::collections::hash_map::DefaultHasher;
use std::hash::Hasher;

use vstd::bytes::{
    spec_u128_to_le_bytes, spec_u32_to_le_bytes, spec_u64_to_le_bytes, u128_to_le_bytes, u32_to_le_bytes, u64_to_le_bytes,
};
use vstd::prelude::*;
use vstd::std_specs::hash::DefaultHasherAdditionalSpecFns;
use vstd::utf8::{encode_utf8, is_ascii_chars, is_ascii_chars_encode_utf8};

use crate::access::SrvCfg;
use crate::http::{is_authed, law_token_in_the_query_is_found};
use crate::numeral::{decimal, hexadecimal, is_digit, lemma_decimal_digits, push_decimal, push_hexadecimal};
use crate::outside::{drawn, qr_image_of, qr_svg, QR_BYTE_LIMIT, SVG_START};
use crate::psu::identify_script;
use crate::scpi::Transaction;
use crate::text::starts_with;

verus! {

// The clock and the address of the machine.

/// The time in seconds since 1970, as the clock gives it; a clock that stands
/// before 1970 gives none, which counts as 0.
pub fn epoch_secs(since_epoch: Option<u64>) -> (secs: u64)
    ensures
        secs == (match since_epoch {
            Some(s) => s,
            None => 0,
        }),
{
    match since_epoch {
        Some(s) => s,
        None => 0,
    }
}

/// The address of the machine in its network: the one that the system gives,
/// unless there is none or it is one that only the machine itself can reach.
pub open spec fn lan_of(local: Option<Seq<char>>) -> Seq<char> {
    match local {
        Some(ip) => if "127."@.is_prefix_of(ip) {
            "127.0.0.1"@
        } else {
            ip
        },
        None => "127.0.0.1"@,
    }
}

/// The address of the machine in its network.
pub fn lan_ip(local: Option<&str>) -> (r: String)
    ensures
        r@ == lan_of(match local {
            Some(ip) => Some(ip@),
            None => None,
        }),
{
    match local {
        Some(ip) => {
            if !starts_with(ip, "127.") {
                return ip.to_string();
            }
        },
        None => {},
    }
    "127.0.0.1".to_string()
}

/// The low 64 bits of a time in nanoseconds.
pub open spec fn low_bits(nanos: u128) -> nat {
    nanos as nat % 0x1_0000_0000_0000_0000
}

/// The token that a hash and a time in nanoseconds make: both in hexadecimal,
/// sixteen digits each.
pub open spec fn token_of(hash: u64, nanos: u128) -> Seq<char> {
    hexadecimal(hash as nat, 16) + hexadecimal(low_bits(nanos), 16)
}

/// Writes the token that a hash and a time in nanoseconds make.
pub fn token_text(hash: u64, nanos: u128) -> (s: String)
    ensures
        s@ == token_of(hash, nanos),
        s@.len() == 32,
{
    let mut s: String = String::new();
    push_hexadecimal(&mut s, hash, 16);
    proof {
        assert(s@ =~= hexadecimal(hash as nat, 16));
        lemma_hexadecimal_len(hash as nat, 16);
        lemma_hexadecimal_len(low_bits(nanos), 16);
    }
    push_hexadecimal(&mut s, (nanos % 0x1_0000_0000_0000_0000) as u64, 16);
    s
}

/// What is hashed for a token: the time, the number of the process and the
/// count, each with its lowest byte first.
pub open spec fn hashed(nanos: u128, pid: u32, count: u64) -> Seq<Seq<u8>> {
    seq![spec_u128_to_le_bytes(nanos), spec_u32_to_le_bytes(pid), spec_u64_to_le_bytes(count)]
}

/// The time in nanoseconds since 1970; a clock that stands before 1970 gives
/// none, which counts as 0.
pub open spec fn nanos_of(since_epoch: Option<u128>) -> u128 {
    match since_epoch {
        Some(n) => n,
        None => 0,
    }
}

/// Makes a token of the time, the number of the process and a count of the
/// tokens made before: a hash of the three, and the time. The count goes up,
/// and begins again at 0 after its highest value.
pub fn make_token(since_epoch: Option<u128>, pid: u32, count: &mut u64) -> (s: String)
    ensures
        s@ == token_of(
            DefaultHasher::spec_finish(hashed(nanos_of(since_epoch), pid, *old(count))),
            nanos_of(since_epoch),
        ),
        s@.len() == 32,
        *final(count) == (if *old(count) == u64::MAX {
            0
        } else {
            (*old(count) + 1) as u64
        }),
{
    let nanos: u128 = match since_epoch {
        Some(n) => n,
        None => 0,
    };
    let mut hasher = DefaultHasher::new();
    hasher.write(&u128_to_le_bytes(nanos));
    hasher.write(&u32_to_le_bytes(pid));
    hasher.write(&u64_to_le_bytes(*count));
    proof {
        assert(hasher@ =~= hashed(nanos, pid, *count));
    }
    *count = if *count == u64::MAX {
        0
    } else {
        *count + 1
    };
    token_text(hasher.finish(), nanos)
}

proof fn lemma_hexadecimal_len(n: nat, width: nat)
    ensures
        hexadecimal(n, width).len() == width,
    decreases width,
{
    if width > 0 {
        lemma_hexadecimal_len(n / 16, (width - 1) as nat);
    }
}

/// What is hashed for a token is the same only where the time, the process and
/// the count are.
pub proof fn law_different_numbers_are_hashed_differently(
    n1: u128,
    p1: u32,
    c1: u64,
    n2: u128,
    p2: u32,
    c2: u64,
)
    requires
        hashed(n1, p1, c1) == hashed(n2, p2, c2),
    ensures
        n1 == n2,
        p1 == p2,
        c1 == c2,
{
    vstd::bytes::lemma_auto_spec_u128_to_from_le_bytes();
    vstd::bytes::lemma_auto_spec_u32_to_from_le_bytes();
    vstd::bytes::lemma_auto_spec_u64_to_from_le_bytes();
    let a = hashed(n1, p1, c1);
    let b = hashed(n2, p2, c2);
    assert(a[0] == b[0] && a[1] == b[1] && a[2] == b[2]);
    assert(spec_u128_to_le_bytes(n1).len() == 16 && spec_u128_to_le_bytes(n2).len() == 16);
    assert(spec_u32_to_le_bytes(p1).len() == 4 && spec_u32_to_le_bytes(p2).len() == 4);
}

/// Tokens are the same only where the hashes are, and the low bits of the
/// times.
pub proof fn law_tokens_differ_with_hash_and_time(h1: u64, n1: u128, h2: u64, n2: u128)
    requires
        token_of(h1, n1) == token_of(h2, n2),
    ensures
        h1 == h2,
        low_bits(n1) == low_bits(n2),
{
    let a1 = hexadecimal(h1 as nat, 16);
    let a2 = hexadecimal(h2 as nat, 16);
    let b1 = hexadecimal(low_bits(n1), 16);
    let b2 = hexadecimal(low_bits(n2), 16);
    lemma_hexadecimal_len(h1 as nat, 16);
    lemma_hexadecimal_len(h2 as nat, 16);
    lemma_hexadecimal_len(low_bits(n1), 16);
    lemma_hexadecimal_len(low_bits(n2), 16);
    assert(a1 =~= (a1 + b1).take(16));
    assert(a2 =~= (a2 + b2).take(16));
    assert(b1 =~= (a1 + b1).skip(16));
    assert(b2 =~= (a2 + b2).skip(16));
    lemma_sixteen();
    lemma_hexadecimal_injective(h1 as nat, h2 as nat, 16);
    lemma_hexadecimal_injective(low_bits(n1), low_bits(n2), 16);
}

/// A token that was made, put into the query of a request, lets the request
/// pass.
pub proof fn law_made_token_is_accepted(
    hash: u64,
    nanos: u128,
    path: Seq<char>,
    h: Map<Seq<char>, Seq<char>>,
)
    requires
        !path.contains('?'),
    ensures
        is_authed(path + "?token="@ + token_of(hash, nanos), h, token_of(hash, nanos)),
{
    let token = token_of(hash, nanos);
    lemma_hexadecimal_plain(hash as nat, 16);
    lemma_hexadecimal_plain(low_bits(nanos), 16);
    lemma_hexadecimal_len(hash as nat, 16);
    lemma_hexadecimal_len(low_bits(nanos), 16);
    if token.contains('&') {
        let i = choose|i: int| 0 <= i < token.len() && token[i] == '&';
        if i < 16 {
            assert(hexadecimal(hash as nat, 16)[i] == '&');
        } else {
            assert(hexadecimal(low_bits(nanos), 16)[i - 16] == '&');
        }
    }
    law_token_in_the_query_is_found(path, token, h);
}

proof fn lemma_hexadecimal_plain(n: nat, width: nat)
    ensures
        forall|i: int| 0 <= i < hexadecimal(n, width).len() ==> #[trigger] hexadecimal(n, width)[i] != '&',
    decreases width,
{
    if width > 0 {
        let w = (width - 1) as nat;
        let x = hexadecimal(n / 16, w);
        lemma_hexadecimal_plain(n / 16, w);
        let s = hexadecimal(n, width);
        assert(s == x.push(crate::numeral::hex_digit(n % 16)));
        assert forall|i: int| 0 <= i < s.len() implies #[trigger] s[i] != '&' by {
            if i < x.len() {
                assert(s[i] == x[i]);
            }
        }
    }
}

/// How many numbers have so many hexadecimal digits.
pub open spec fn hex_range(width: nat) -> nat
    decreases width,
{
    if width == 0 {
        1
    } else {
        16 * hex_range((width - 1) as nat)
    }
}

proof fn lemma_sixteen()
    ensures
        hex_range(16) == 0x1_0000_0000_0000_0000,
{
    reveal_with_fuel(hex_range, 17);
}

proof fn lemma_hexadecimal_injective(a: nat, b: nat, width: nat)
    requires
        hexadecimal(a, width) == hexadecimal(b, width),
        a < hex_range(width),
        b < hex_range(width),
    ensures
        a == b,
    decreases width,
{
    if width > 0 {
        let w = (width - 1) as nat;
        let x = hexadecimal(a / 16, w);
        let y = hexadecimal(b / 16, w);
        let p = x.push(crate::numeral::hex_digit(a % 16));
        let q = y.push(crate::numeral::hex_digit(b % 16));
        assert(p.drop_last() =~= x);
        assert(q.drop_last() =~= y);
        assert(p.last() == q.last());
        lemma_hexadecimal_injective(a / 16, b / 16, w);
    }
}

// Starting.

/// Why the server is not started, if it is not.
pub open spec fn start_error(level: u8, allow_lv2: bool, running: bool) -> Option<Seq<char>> {
    if level > 2 {
        Some("levelは0-2"@)
    } else if level == 2 && !allow_lv2 {
        Some("Lv2フル操作には明示的な有効化が必要です"@)
    } else if running {
        Some("サーバー起動中です"@)
    } else {
        None
    }
}

/// The leave to start a server.
#[derive(Debug, PartialEq, Eq)]
pub struct Admission {
    level: u8,
}

impl View for Admission {
    type V = u8;

    /// The level that was admitted.
    closed spec fn view(&self) -> u8 {
        self.level
    }
}

impl Admission {
    /// The level is one that there is.
    pub open spec fn wf(&self) -> bool {
        self@ <= 2
    }
}

/// Admits the start of the server: at a level that there is, at level 2 only
/// where that was allowed in so many words, and only one at a time.
pub fn server_start(level: u8, allow_lv2: bool, slot: &Option<Running>) -> (r: Result<Admission, String>)
    ensures
        match start_error(level, allow_lv2, slot is Some) {
            Some(m) => r matches Err(e) && e@ == m,
            None => r matches Ok(a) && a.wf() && a@ == level,
        },
{
    if level > 2 {
        return Err("levelは0-2".to_string());
    }
    if level == 2 && !allow_lv2 {
        return Err("Lv2フル操作には明示的な有効化が必要です".to_string());
    }
    if slot.is_some() {
        return Err("サーバー起動中です".to_string());
    }
    Ok(Admission { level })
}

/// The address that is shown to clients. At level 2 it holds the token.
pub open spec fn public_url(lan: Seq<char>, port: u16, level: u8, token: Seq<char>) -> Seq<char> {
    "http://"@ + lan + ":"@ + decimal(port as nat) + (if level == 2 {
        "/?token="@ + token
    } else {
        "/"@
    })
}

/// The address that the server listens on.
pub open spec fn bind_address(port: u16) -> Seq<char> {
    "0.0.0.0:"@ + decimal(port as nat)
}

/// The note of the start.
pub open spec fn start_note(level: u8, url: Seq<char>) -> Seq<char> {
    "start Lv"@ + decimal(level as nat) + " "@ + url
}

/// All that is needed to run the server.
pub struct ServerPlan {
    pub cfg: SrvCfg,
    pub bind: String,
    pub qr: String,
    pub note: String,
}

/// Writes the address that is shown to clients.
pub fn public_url_text(lan: &str, port: u16, level: u8, token: &str) -> (s: String)
    ensures
        s@ == public_url(lan@, port, level, token@),
{
    let mut s: String = "http://".to_string();
    s.append(lan);
    s.append(":");
    push_decimal(&mut s, port as u64);
    let mut tail: String = "/".to_string();
    if level == 2 {
        tail = "/?token=".to_string();
        tail.append(token);
    }
    s.append(&tail);
    s
}

proof fn lemma_decimal_len(n: nat)
    requires
        n < 100000,
    ensures
        decimal(n).len() <= 5,
{
    reveal_with_fuel(decimal, 6);
}

/// What the plan must be.
pub open spec fn planned(
    p: ServerPlan,
    port: u16,
    level: u8,
    lan: Seq<char>,
    token: Seq<char>,
    device: Seq<char>,
) -> bool {
    let url = public_url(lan, port, level, token);
    &&& p.cfg.wf()
    &&& p.cfg.device@ == device
    &&& p.cfg.level == level
    &&& p.cfg.token@ == token
    &&& p.cfg.public@ == url
    &&& p.bind@ == bind_address(port)
    &&& drawn(qr_image_of(url)) == Ok::<Seq<char>, Seq<char>>(p.qr@)
    &&& SVG_START@.is_prefix_of(p.qr@)
    &&& p.note@ == start_note(level, url)
}

/// Makes the plan for a server that was admitted, once the device on its serial
/// port has been found to be an SPE6103: an error where no port is given to
/// listen on.
pub fn server_plan(port: u16, admission: &Admission, lan: &str, token: &str, supply: &Transaction) -> (r: Result<
    ServerPlan,
    String,
>)
    requires
        admission.wf(),
        supply.wf(),
        supply@.finished(),
        supply@.script == identify_script(),
        encode_utf8(public_url(lan@, port, admission@, token@)).len() <= QR_BYTE_LIMIT,
    ensures
        supply@.identified(),
        match r {
            Ok(p) => port != 0 && planned(p, port, admission@, lan@, token@, supply@.port),
            Err(e) => port == 0 && e@ == "ポート番号を指定してください (例: 8000)"@,
        },
{
    proof {
        assert(supply@.script[1] is Guard);
    }
    let level: u8 = admission.level;
    if port == 0 {
        return Err("ポート番号を指定してください (例: 8000)".to_string());
    }
    let public = public_url_text(lan, port, level, token);
    match qr_svg(&public) {
        Ok(qr) => {
            let mut bind: String = "0.0.0.0:".to_string();
            push_decimal(&mut bind, port as u64);
            let mut note: String = "start Lv".to_string();
            push_decimal(&mut note, level as u64);
            note.append(" ");
            note.append(&public);
            Ok(
                ServerPlan {
                    cfg: SrvCfg { device: supply.port().to_string(), level, token: token.to_string(), public },
                    bind,
                    qr,
                    note,
                },
            )
        },
        Err(e) => Err(e),
    }
}

/// The text is ASCII, with so many characters at most.
pub open spec fn short_ascii(s: Seq<char>, n: nat) -> bool {
    is_ascii_chars(s) && s.len() <= n
}

proof fn lemma_short_sum(a: Seq<char>, m: nat, b: Seq<char>, n: nat)
    requires
        short_ascii(a, m),
        short_ascii(b, n),
    ensures
        short_ascii(a + b, m + n),
{
    let s = a + b;
    assert forall|i: int| 0 <= i < s.len() implies '\0' <= #[trigger] s[i] <= '\u{7f}' by {
        if i < a.len() {
            assert(s[i] == a[i]);
        } else {
            assert(s[i] == b[i - a.len()]);
        }
    }
}

proof fn lemma_hexadecimal_ascii(n: nat, width: nat)
    ensures
        short_ascii(hexadecimal(n, width), width),
    decreases width,
{
    if width > 0 {
        let w = (width - 1) as nat;
        let x = hexadecimal(n / 16, w);
        lemma_hexadecimal_ascii(n / 16, w);
        let s = hexadecimal(n, width);
        assert(s == x.push(crate::numeral::hex_digit(n % 16)));
        assert forall|i: int| 0 <= i < s.len() implies '\0' <= #[trigger] s[i] <= '\u{7f}' by {
            if i < x.len() {
                assert(s[i] == x[i]);
            }
        }
    }
}

/// The address of a server can be drawn, with any token that was made, whatever
/// the address of its machine is: those of the Internet Protocol, version 4,
/// have at most fifteen characters.
pub proof fn law_address_of_a_server_can_be_drawn(
    lan: Seq<char>,
    port: u16,
    level: u8,
    hash: u64,
    nanos: u128,
)
    requires
        short_ascii(lan, 15),
    ensures
        encode_utf8(public_url(lan, port, level, token_of(hash, nanos))).len() <= QR_BYTE_LIMIT,
{
    let token = token_of(hash, nanos);
    let d = decimal(port as nat);
    reveal_strlit("http://");
    reveal_strlit(":");
    reveal_strlit("/");
    reveal_strlit("/?token=");
    lemma_hexadecimal_ascii(hash as nat, 16);
    lemma_hexadecimal_ascii(low_bits(nanos), 16);
    lemma_short_sum(hexadecimal(hash as nat, 16), 16, hexadecimal(low_bits(nanos), 16), 16);
    lemma_decimal_len(port as nat);
    lemma_decimal_digits(port as nat);
    assert(is_ascii_chars(d)) by {
        assert forall|i: int| 0 <= i < d.len() implies '\0' <= #[trigger] d[i] <= '\u{7f}' by {
            assert(is_digit(d[i]));
        }
    }
    lemma_short_sum("http://"@, 7, lan, 15);
    lemma_short_sum("http://"@ + lan, 22, ":"@, 1);
    lemma_short_sum("http://"@ + lan + ":"@, 23, d, 5);
    lemma_short_sum("/?token="@, 8, token, 32);
    lemma_short_sum("http://"@ + lan + ":"@ + d, 28, "/?token="@ + token, 40);
    lemma_short_sum("http://"@ + lan + ":"@ + d, 28, "/"@, 1);
    is_ascii_chars_encode_utf8(public_url(lan, port, level, token));
}

/// What is told of a server that was started.
#[derive(Debug, PartialEq, Eq)]
pub struct ServerInfo {
    pub url: String,
    pub lan: String,
    pub port: u16,
    pub level: u8,
    pub token: String,
    pub qr: String,
    pub log: String,
}

/// Tells of a server that was started. The token is told at level 2 alone.
pub fn server_info(plan: &ServerPlan, lan: &str, port: u16, log: &str) -> (r: ServerInfo)
    ensures
        r.url@ == plan.cfg.public@,
        r.lan@ == lan@,
        r.port == port,
        r.level == plan.cfg.level,
        r.token@ == (if plan.cfg.level == 2 {
            plan.cfg.token@
        } else {
            Seq::empty()
        }),
        r.qr@ == plan.qr@,
        r.log@ == log@,
{
    ServerInfo {
        url: plan.cfg.public.clone(),
        lan: lan.to_string(),
        port,
        level: plan.cfg.level,
        token: if plan.cfg.level == 2 {
            plan.cfg.token.clone()
        } else {
            String::new()
        },
        qr: plan.qr.clone(),
        log: log.to_string(),
    }
}

/// Below level 2 neither the address that is shown nor its QR code depends on
/// the token: whoever sees them learns nothing of it.
pub proof fn law_token_is_kept_below_level_2(
    lan: Seq<char>,
    port: u16,
    level: u8,
    token: Seq<char>,
    other: Seq<char>,
)
    requires
        level < 2,
    ensures
        public_url(lan, port, level, token) == public_url(lan, port, level, other),
        drawn(qr_image_of(public_url(lan, port, level, token))) == drawn(
            qr_image_of(public_url(lan, port, level, other)),
        ),
{
}

// The log of operations.

/// The name of the log of a server that was started at this time.
pub fn server_log_name(secs: u64) -> (s: String)
    ensures
        s@ == "server_"@ + decimal(secs as nat) + ".log"@,
{
    let mut s: String = "server_".to_string();
    push_decimal(&mut s, secs);
    s.append(".log");
    s
}

/// The line for one operation.
pub open spec fn ops_line(secs: u64, who: Seq<char>, what: Seq<char>) -> Seq<char> {
    "["@ + decimal(secs as nat) + "] "@ + who + " "@ + what
}

/// Notes an operation: gives the line for the log, and counts it.
pub fn ops_log(ops: &mut u64, secs: u64, who: &str, what: &str) -> (s: String)
    requires
        *old(ops) < u64::MAX,
    ensures
        s@ == ops_line(secs, who@, what@),
        *final(ops) == *old(ops) + 1,
{
    let mut s: String = "[".to_string();
    push_decimal(&mut s, secs);
    s.append("] ");
    s.append(who);
    s.append(" ");
    s.append(what);
    *ops = *ops + 1;
    s
}

// Stopping, and asking.

/// A server that runs.
pub struct Running {
    pub url: String,
    pub level: u8,
}

/// The server before any was started.
pub fn server_slot() -> (slot: Option<Running>)
    ensures
        slot is None,
{
    None
}

/// The server was started after its plan.
pub fn server_started(slot: &mut Option<Running>, plan: &ServerPlan)
    ensures
        *final(slot) matches Some(s) && s.url@ == plan.cfg.public@ && s.level == plan.cfg.level,
{
    *slot = Some(Running { url: plan.cfg.public.clone(), level: plan.cfg.level });
}

/// Stops the server: tells the path of its log and how many operations it has.
pub fn server_stop(slot: &mut Option<Running>, log: &str, ops: u64) -> (r: Result<String, String>)
    ensures
        *final(slot) is None,
        match *old(slot) {
            Some(_) => r matches Ok(s) && s@ == log@ + " ("@ + decimal(ops as nat) + "ops)"@,
            None => r matches Err(e) && e@ == "サーバーは起動していません"@,
        },
{
    match slot.take() {
        Some(_) => {
            let mut s: String = log.to_string();
            s.append(" (");
            push_decimal(&mut s, ops);
            s.append("ops)");
            Ok(s)
        },
        None => Err("サーバーは起動していません".to_string()),
    }
}

/// What is told of the server at any time.
#[derive(Debug, PartialEq, Eq)]
pub struct ServerStatus {
    pub running: bool,
    pub url: String,
    pub level: u8,
    pub ops: u64,
}

/// Tells whether the server runs, and where.
pub fn server_status(slot: &Option<Running>, ops: u64) -> (r: ServerStatus)
    ensures
        match slot {
            Some(s) => r.running && r.url@ == s.url@ && r.level == s.level && r.ops == ops,
            None => !r.running && r.url@.len() == 0 && r.level == 0 && r.ops == 0,
        },
{
    match slot {
        Some(s) => ServerStatus { running: true, url: s.url.clone(), level: s.level, ops },
        None => ServerStatus { running: false, url: String::new(), level: 0, ops: 0 },
    }
}

// What holds of starting, of addresses and of notes.

/// A server may start exactly if none runs, at level 0 or 1, or at level 2 where
/// that was allowed. An unknown level is told before anything else, the missing
/// leave before the server that runs already.
pub proof fn law_who_may_start(level: u8, allow_lv2: bool, running: bool)
    ensures
        start_error(level, allow_lv2, running) is None <==> !running && (level < 2 || (level == 2 && allow_lv2)),
        level > 2 ==> start_error(level, allow_lv2, running) == Some("levelは0-2"@),
        level == 2 && !allow_lv2 ==> start_error(level, allow_lv2, running) == Some(
            "Lv2フル操作には明示的な有効化が必要です"@,
        ),
        running && (level < 2 || (level == 2 && allow_lv2)) ==> start_error(level, allow_lv2, running) == Some(
            "サーバー起動中です"@,
        ),
{
}

/// The address of the machine is the one that was found, unless that one begins
/// with `127.` or there is none: then it is `127.0.0.1`.
pub proof fn law_address_of_the_machine(ip: Seq<char>, rest: Seq<char>)
    ensures
        lan_of(None) == "127.0.0.1"@,
        lan_of(Some("127."@ + rest)) == "127.0.0.1"@,
        lan_of(Some(ip)) == ip || (lan_of(Some(ip)) == "127.0.0.1"@ && ip.take(4) == "127."@),
{
    reveal_strlit("127.");
    assert("127."@.is_prefix_of("127."@ + rest)) by {
        assert(("127."@ + rest).take(4) =~= "127."@);
    }
    if "127."@.is_prefix_of(ip) {
        assert(ip.take(4) =~= "127."@);
    }
}

/// The addresses and the note of a start, word by word. What follows the port in
/// the address that is shown is what a client asks the server for: at level 2 it
/// holds the token.
pub proof fn law_addresses_of_a_server(lan: Seq<char>, port: u16, level: u8, token: Seq<char>, url: Seq<char>)
    ensures
        level == 2 ==> public_url(lan, port, level, token) == "http://"@ + lan + ":"@ + decimal(port as nat)
            + "/?token="@ + token,
        level != 2 ==> public_url(lan, port, level, token) == "http://"@ + lan + ":"@ + decimal(port as nat) + "/"@,
        bind_address(port) == "0.0.0.0:"@ + decimal(port as nat),
        start_note(level, url) == "start Lv"@ + decimal(level as nat) + " "@ + url,
{
    let a = "http://"@ + lan + ":"@ + decimal(port as nat);
    assert(a + ("/?token="@ + token) =~= a + "/?token="@ + token);
}

/// A plan is for the device that was found, at the level that was admitted, with
/// the token that was made. The address that it shows is the one that its note
/// and its QR code hold.
pub proof fn law_parts_of_a_plan(
    p: ServerPlan,
    port: u16,
    level: u8,
    lan: Seq<char>,
    token: Seq<char>,
    device: Seq<char>,
)
    requires
        planned(p, port, level, lan, token, device),
    ensures
        p.cfg.device@ == device,
        p.cfg.level == level,
        level <= 2,
        p.cfg.token@ == token,
        level == 2 ==> p.cfg.public@ == "http://"@ + lan + ":"@ + decimal(port as nat) + "/?token="@ + token,
        level != 2 ==> p.cfg.public@ == "http://"@ + lan + ":"@ + decimal(port as nat) + "/"@,
        p.bind@ == "0.0.0.0:"@ + decimal(port as nat),
        p.note@ == "start Lv"@ + decimal(level as nat) + " "@ + p.cfg.public@,
        qr_image_of(p.cfg.public@) == Ok::<Seq<char>, Seq<char>>(p.qr@),
        "<?xml version=\"1.0\" standalone=\"yes\"?><svg xmlns=\"http://www.w3.org/2000/svg\""@.is_prefix_of(p.qr@),
{
    law_addresses_of_a_server(lan, port, level, token, p.cfg.public@);
}

/// A note of an operation holds the time in brackets, who did it and what.
pub proof fn law_note_of_an_operation(secs: u64, who: Seq<char>, what: Seq<char>)
    ensures
        ops_line(secs, who, what) == "["@ + decimal(secs as nat) + "] "@ + who + " "@ + what,
{
}

/// A token has thirty-two digits: sixteen for the hash, and sixteen for the time
/// without what is above its lowest 64 bits.
pub proof fn law_digits_of_a_token(hash: u64, nanos: u128)
    ensures
        token_of(hash, nanos).len() == 32,
        token_of(hash, nanos).take(16) == hexadecimal(hash as nat, 16),
        token_of(hash, nanos).skip(16) == hexadecimal(nanos as nat % 18446744073709551616, 16),
        nanos_of(Some(nanos)) == nanos,
        nanos_of(None) == 0,
{
    lemma_hexadecimal_len(hash as nat, 16);
    lemma_hexadecimal_len(low_bits(nanos), 16);
    assert(token_of(hash, nanos).take(16) =~= hexadecimal(hash as nat, 16));
    assert(token_of(hash, nanos).skip(16) =~= hexadecimal(low_bits(nanos), 16));
}

/// The three numbers are hashed in their order, and each can be read back from
/// its bytes, the lowest first.
pub proof fn law_numbers_read_back_from_what_is_hashed(nanos: u128, pid: u32, count: u64)
    ensures
        hashed(nanos, pid, count).len() == 3,
        hashed(nanos, pid, count)[0].len() == 16,
        hashed(nanos, pid, count)[1].len() == 4,
        hashed(nanos, pid, count)[2].len() == 8,
        vstd::bytes::spec_u128_from_le_bytes(hashed(nanos, pid, count)[0]) == nanos,
        vstd::bytes::spec_u32_from_le_bytes(hashed(nanos, pid, count)[1]) == pid,
        vstd::bytes::spec_u64_from_le_bytes(hashed(nanos, pid, count)[2]) == count,
{
    let h = hashed(nanos, pid, count);
    let n = spec_u128_to_le_bytes(nanos);
    let p = spec_u32_to_le_bytes(pid);
    let c = spec_u64_to_le_bytes(count);
    assert(h[0] == n && h[1] == p && h[2] == c);
    assert(n.len() == 16 && vstd::bytes::spec_u128_from_le_bytes(n) == nanos) by {
        vstd::bytes::lemma_auto_spec_u128_to_from_le_bytes();
    }
    assert(p.len() == 4 && vstd::bytes::spec_u32_from_le_bytes(p) == pid) by {
        vstd::bytes::lemma_auto_spec_u32_to_from_le_bytes();
    }
    assert(c.len() == 8 && vstd::bytes::spec_u64_from_le_bytes(c) == count) by {
        vstd::bytes::lemma_auto_spec_u64_to_from_le_bytes();
    }
}

} // verus!
