//! What a client of the server may do, and what it is answered.
//!
//! At level 0 a client may watch. At level 1 it may also switch the output
//! off. At level 2 it may do all, if it carries the token.

use vstd::prelude::*;
use vstd::utf8::encode_utf8;

use crate::double::fixed;
use crate::http::{authed, is_authed, path_of, split_target, Request, Response};
use crate::json::{
    law_object_reads_back, object, object_of_one, object_text, pairs, plain, printable, read_object, Member,
};
use crate::limits::{deliverable, power_message, va_error, Quantity};
use crate::outside::{drawn, json_bool, json_bool_of, json_number, json_number_of, qr_image_of, qr_svg, texts, QR_BYTE_LIMIT};
use crate::page::{page, page_html};
use crate::psu::{
    apply_result, apply_script, begun, device_snapshot_json, dialogue, law_apply_dialogue,
    law_apply_replies_answer_their_queries, law_outp_dialogue, law_outp_reply_answers_its_query,
    law_scripts_ask_for_their_outcome, law_status_members_answer_their_queries, law_strangers_get_no_command, line_of,
    outp_script, poll_script, psu_poll, reply_text, scpi_apply, scpi_outp, snapshot, status_members, status_values,
    ApplyResult, Snapshot, COMMAND_TIMEOUT_MS, POLL_TIMEOUT_MS,
};
use crate::scpi::{is_reply_to, is_spe6103, StepView, Transaction};
use crate::text::{contains, has, occurs_at, same};

verus! {

/// How the server was set up.
pub struct SrvCfg {
    /// The serial port of the supply.
    pub device: String,
    /// What clients may do.
    pub level: u8,
    /// What they must carry to do all.
    pub token: String,
    /// The address that is shown to them.
    pub public: String,
}

impl SrvCfg {
    /// The level is one that there is, and the address can be drawn.
    pub open spec fn wf(&self) -> bool {
        self.level <= 2 && encode_utf8(self.public@).len() <= QR_BYTE_LIMIT
    }
}

/// What is to be done on a request.
#[derive(Debug, PartialEq, Eq)]
pub enum Next {
    /// Send this reply.
    Reply(Response),
    /// Read the state of the supply.
    Status,
    /// Switch the output.
    Output { on: bool },
    /// Set voltage and current.
    Apply { volt: Quantity, curr: Quantity },
}

/// What is to be done on a request, and the note to make of it in the log.
#[derive(Debug, PartialEq, Eq)]
pub struct Handled {
    pub note: Option<String>,
    pub next: Next,
}

/// A reply as a mathematical value.
pub struct ResponseView {
    pub code: u16,
    pub text: Seq<char>,
    pub ctype: Seq<char>,
    pub body: Seq<char>,
}

impl View for Response {
    type V = ResponseView;

    open spec fn view(&self) -> ResponseView {
        ResponseView { code: self.code, text: self.text@, ctype: self.ctype@, body: self.body@ }
    }
}

/// What is to be done, as a mathematical value.
pub enum NextView {
    Reply(ResponseView),
    Status,
    Output { on: bool },
    Apply { volt: (u64, Seq<char>), curr: (u64, Seq<char>) },
}

impl View for Next {
    type V = NextView;

    open spec fn view(&self) -> NextView {
        match self {
            Next::Reply(r) => NextView::Reply(r@),
            Next::Status => NextView::Status,
            Next::Output { on } => NextView::Output { on: *on },
            Next::Apply { volt, curr } => NextView::Apply {
                volt: (volt.bits, volt.shown@),
                curr: (curr.bits, curr.shown@),
            },
        }
    }
}

/// What is to be done and noted, as a mathematical value.
pub struct HandledView {
    pub note: Option<Seq<char>>,
    pub next: NextView,
}

impl View for Handled {
    type V = HandledView;

    open spec fn view(&self) -> HandledView {
        HandledView {
            note: match self.note {
                Some(s) => Some(s@),
                None => None,
            },
            next: self.next@,
        }
    }
}

// Replies.

/// A reply that all is well.
pub open spec fn success(ctype: Seq<char>, body: Seq<char>) -> ResponseView {
    ResponseView { code: 200, text: "OK"@, ctype, body }
}

/// A reply that something is not.
pub open spec fn refusal(code: u16, ctype: Seq<char>, body: Seq<char>) -> ResponseView {
    ResponseView { code, text: "ERR"@, ctype, body }
}

/// The body that tells an error.
pub open spec fn error_body(e: Seq<char>) -> Seq<char> {
    object(seq![("error"@, e)])
}

fn succeed(ctype: &str, body: String) -> (r: Response)
    ensures
        r@ == success(ctype@, body@),
{
    Response { code: 200, text: "OK".to_string(), ctype: ctype.to_string(), body }
}

fn refuse(code: u16, ctype: &str, body: String) -> (r: Response)
    ensures
        r@ == refusal(code, ctype@, body@),
{
    Response { code, text: "ERR".to_string(), ctype: ctype.to_string(), body }
}

/// A reply, of which no note is made.
pub open spec fn answer(r: ResponseView) -> HandledView {
    HandledView { note: None, next: NextView::Reply(r) }
}

/// A request that is not allowed: it is noted, and told so.
pub open spec fn denial(note: Seq<char>, message: Seq<char>) -> HandledView {
    HandledView {
        note: Some(note),
        next: NextView::Reply(refusal(403, "text/plain"@, message)),
    }
}

/// A request whose body cannot be made out.
pub open spec fn bad_body() -> HandledView {
    answer(refusal(400, "text/plain"@, "bad body"@))
}

fn deny(note: &str, message: &str) -> (h: Handled)
    ensures
        h@ == denial(note@, message@),
{
    Handled {
        note: Some(note.to_string()),
        next: Next::Reply(refuse(403, "text/plain", message.to_string())),
    }
}

fn reply(r: Response) -> (h: Handled)
    ensures
        h@ == answer(r@),
{
    Handled { note: None, next: Next::Reply(r) }
}

fn reject_body() -> (h: Handled)
    ensures
        h@ == bad_body(),
{
    reply(refuse(400, "text/plain", "bad body".to_string()))
}

// Decisions.

/// What a request to switch the output leads to.
pub open spec fn outp_decision(level: u8, authed: bool, on: Option<bool>) -> HandledView {
    match on {
        None => bad_body(),
        Some(on) => if level == 0 {
            denial("DENY outp (Lv0)"@, "Lv0は監視のみ"@)
        } else if level == 1 && on {
            denial("DENY outp ON (Lv1はOFFのみ)"@, "Lv1は出力OFFのみ"@)
        } else if level == 2 && !authed {
            denial("DENY outp (token)"@, "token required"@)
        } else {
            HandledView { note: None, next: NextView::Output { on } }
        },
    }
}

/// What a request to set voltage and current leads to.
pub open spec fn apply_decision(
    level: u8,
    authed: bool,
    volt: Option<(u64, Seq<char>)>,
    curr: Option<(u64, Seq<char>)>,
) -> HandledView {
    if level != 2 || !authed {
        denial("DENY apply (Lv2+token required)"@, "Lv2+token required"@)
    } else {
        match (volt, curr) {
            (Some(v), Some(c)) => HandledView {
                note: None,
                next: NextView::Apply { volt: v, curr: c },
            },
            _ => bad_body(),
        }
    }
}

/// The reply with the QR code.
pub open spec fn qr_decision(qr: Result<Seq<char>, Seq<char>>) -> HandledView {
    match qr {
        Ok(svg) => answer(success("image/svg+xml"@, svg)),
        Err(e) => answer(refusal(500, "text/plain"@, e)),
    }
}

/// The places that a request can be for.
pub enum Route {
    Page,
    Qr,
    Status,
    Outp,
    Apply,
    Missing,
}

/// The place that a request is for.
pub open spec fn route_of(method: Seq<char>, path: Seq<char>) -> Route {
    if method == "GET"@ && (path == "/"@ || path == "/index.html"@) {
        Route::Page
    } else if method == "GET"@ && path == "/qr"@ {
        Route::Qr
    } else if method == "GET"@ && path == "/api/status"@ {
        Route::Status
    } else if method == "POST"@ && path == "/api/outp"@ {
        Route::Outp
    } else if method == "POST"@ && path == "/api/apply"@ {
        Route::Apply
    } else {
        Route::Missing
    }
}

/// What a request leads to, by its place, the level, whether it carries the
/// token, and what its body was found to hold.
pub open spec fn decision(
    route: Route,
    level: u8,
    authed: bool,
    on: Option<bool>,
    volt: Option<(u64, Seq<char>)>,
    curr: Option<(u64, Seq<char>)>,
    qr: Result<Seq<char>, Seq<char>>,
) -> HandledView {
    match route {
        Route::Page => answer(success("text/html; charset=utf-8"@, page(level))),
        Route::Qr => qr_decision(qr),
        Route::Status => HandledView { note: None, next: NextView::Status },
        Route::Outp => outp_decision(level, authed, on),
        Route::Apply => apply_decision(level, authed, volt, curr),
        Route::Missing => answer(refusal(404, "text/plain"@, "not found"@)),
    }
}

/// Finds the place that a request is for.
pub fn route(method: &str, path: &str) -> (r: Route)
    ensures
        r == route_of(method@, path@),
{
    if same(method, "GET") {
        if same(path, "/") || same(path, "/index.html") {
            return Route::Page;
        }
        if same(path, "/qr") {
            return Route::Qr;
        }
        if same(path, "/api/status") {
            return Route::Status;
        }
    }
    if same(method, "POST") {
        proof {
            reveal_strlit("GET");
            reveal_strlit("POST");
            assert("GET"@.len() != "POST"@.len());
        }
        if same(path, "/api/outp") {
            return Route::Outp;
        }
        if same(path, "/api/apply") {
            return Route::Apply;
        }
    }
    Route::Missing
}

/// Decides on a request to switch the output.
pub fn decide_outp(level: u8, authed: bool, on: Option<bool>) -> (h: Handled)
    ensures
        h@ == outp_decision(level, authed, on),
{
    match on {
        None => reject_body(),
        Some(on) => {
            if level == 0 {
                return deny("DENY outp (Lv0)", "Lv0は監視のみ");
            }
            if level == 1 && on {
                return deny("DENY outp ON (Lv1はOFFのみ)", "Lv1は出力OFFのみ");
            }
            if level == 2 && !authed {
                return deny("DENY outp (token)", "token required");
            }
            Handled { note: None, next: Next::Output { on } }
        },
    }
}

/// The number as a mathematical value.
pub open spec fn number(q: Option<Quantity>) -> Option<(u64, Seq<char>)> {
    match q {
        Some(q) => Some((q.bits, q.shown@)),
        None => None,
    }
}

/// Decides on a request to set voltage and current.
pub fn decide_apply(level: u8, authed: bool, volt: Option<Quantity>, curr: Option<Quantity>) -> (h: Handled)
    ensures
        h@ == apply_decision(level, authed, number(volt), number(curr)),
{
    if level != 2 || !authed {
        return deny("DENY apply (Lv2+token required)", "Lv2+token required");
    }
    match (volt, curr) {
        (Some(volt), Some(curr)) => Handled { note: None, next: Next::Apply { volt, curr } },
        _ => reject_body(),
    }
}

/// The reply with the QR code.
pub fn qr_reply(qr: Result<String, String>) -> (h: Handled)
    ensures
        h@ == qr_decision(texts(qr)),
{
    match qr {
        Ok(svg) => reply(succeed("image/svg+xml", svg)),
        Err(e) => reply(refuse(500, "text/plain", e)),
    }
}

/// Decides on a request.
pub fn handle_client(cfg: &SrvCfg, req: &Request) -> (h: Handled)
    requires
        cfg.wf(),
    ensures
        h@ == decision(
            route_of(req.method@, path_of(req.target@)),
            cfg.level,
            is_authed(req.target@, req.headers@, cfg.token@),
            json_bool_of(req.body@, "on"@),
            json_number_of(req.body@, "volt"@),
            json_number_of(req.body@, "curr"@),
            drawn(qr_image_of(cfg.public@)),
        ),
        route_of(req.method@, path_of(req.target@)) is Qr ==> (h@.next matches NextView::Reply(r)
            && r.code == 200),
{
    let path = split_target(&req.target).0;
    match route(&req.method, &path) {
        Route::Page => reply(succeed("text/html; charset=utf-8", page_html(cfg.level))),
        Route::Qr => qr_reply(qr_svg(&cfg.public)),
        Route::Status => Handled { note: None, next: Next::Status },
        Route::Outp => decide_outp(
            cfg.level,
            authed(&req.target, &req.headers, &cfg.token),
            json_bool(&req.body, "on"),
        ),
        Route::Apply => decide_apply(
            cfg.level,
            authed(&req.target, &req.headers, &cfg.token),
            json_number(&req.body, "volt"),
            json_number(&req.body, "curr"),
        ),
        Route::Missing => reply(refuse(404, "text/plain", "not found".to_string())),
    }
}

/// The script by which the supply is made to do what a request led to, if it
/// has to do anything and can.
pub open spec fn script_for(next: NextView) -> Option<Seq<StepView>> {
    match next {
        NextView::Reply(_) => None,
        NextView::Status => Some(poll_script()),
        NextView::Output { on } => Some(outp_script(on)),
        NextView::Apply { volt, curr } => if deliverable(volt.0, curr.0) {
            Some(apply_script(volt.0, curr.0))
        } else {
            None
        },
    }
}

/// Begins to make the supply do what a request led to. There is nothing to
/// begin for a reply, and an error for a setting that the supply does not
/// have.
pub fn carry_out(cfg: &SrvCfg, next: &Next) -> (r: Option<Result<Transaction, String>>)
    ensures
        match r {
            None => next is Reply,
            Some(Ok(t)) => script_for(next@) matches Some(script) && begun(
                t,
                cfg.device@,
                if next is Status {
                    POLL_TIMEOUT_MS
                } else {
                    COMMAND_TIMEOUT_MS
                },
                script,
            ),
            Some(Err(e)) => next matches Next::Apply { volt, curr } && va_error(*volt, *curr) == Some(e@),
        },
{
    match next {
        Next::Reply(_) => None,
        Next::Status => Some(Ok(psu_poll(&cfg.device, None))),
        Next::Output { on } => Some(Ok(scpi_outp(&cfg.device, *on, COMMAND_TIMEOUT_MS))),
        Next::Apply { volt, curr } => Some(scpi_apply(&cfg.device, volt, curr, COMMAND_TIMEOUT_MS)),
    }
}

// Replies on what the supply did.

/// The reply with the state of the supply, given as the members of an object.
pub open spec fn status_answer(r: Result<Seq<(Seq<char>, Seq<char>)>, Seq<char>>) -> HandledView {
    match r {
        Ok(m) => answer(success("application/json"@, object(m))),
        Err(e) => answer(refusal(503, "application/json"@, error_body(e))),
    }
}

/// The reply with the state of the supply.
pub fn status_reply(r: Result<Snapshot, String>) -> (h: Handled)
    ensures
        h@ == status_answer(
            match r {
                Ok(s) => Ok(status_members(s)),
                Err(e) => Err(e@),
            },
        ),
{
    match r {
        Ok(s) => reply(succeed("application/json", device_snapshot_json(&s))),
        Err(e) => reply(refuse(503, "application/json", object_of_one("error", &e))),
    }
}

/// The reply on a switch of the output, and the note of it.
pub open spec fn outp_answer(on: bool, r: Result<Seq<char>, Seq<char>>) -> HandledView {
    match r {
        Ok(s) => HandledView {
            note: Some(
                "outp on="@ + (if on {
                    "true"@
                } else {
                    "false"@
                }) + " -> "@ + s,
            ),
            next: NextView::Reply(success("application/json"@, object(seq![("outp"@, s)]))),
        },
        Err(e) => answer(refusal(500, "application/json"@, error_body(e))),
    }
}

/// The reply on a switch of the output, and the note of it.
pub fn outp_reply(on: bool, r: Result<String, String>) -> (h: Handled)
    ensures
        h@ == outp_answer(on, texts(r)),
{
    match r {
        Ok(s) => {
            let mut note: String = "outp on=".to_string();
            note.append(
                if on {
                    "true"
                } else {
                    "false"
                },
            );
            note.append(" -> ");
            note.append(&s);
            Handled {
                note: Some(note),
                next: Next::Reply(succeed("application/json", object_of_one("outp", &s))),
            }
        },
        Err(e) => reply(refuse(500, "application/json", object_of_one("error", &e))),
    }
}

/// The error is that of a setting that the supply does not have.
pub open spec fn is_limit_error(e: Seq<char>) -> bool {
    has(e, "範囲外"@) || has(e, "超過"@)
}

/// The reply on a setting of voltage and current, and the note of it.
pub open spec fn apply_answer(
    volt: Seq<char>,
    curr: Seq<char>,
    r: Result<(Seq<char>, Seq<char>), Seq<char>>,
) -> HandledView {
    match r {
        Ok((v, c)) => HandledView {
            note: Some("apply "@ + volt + "V "@ + curr + "A"@),
            next: NextView::Reply(
                success("application/json"@, object(seq![("volt"@, v), ("curr"@, c)])),
            ),
        },
        Err(e) => answer(
            refusal(
                if is_limit_error(e) {
                    400
                } else {
                    500
                },
                "application/json"@,
                error_body(e),
            ),
        ),
    }
}

/// The reply on a setting of voltage and current, and the note of it. A
/// setting that the supply does not have is the client's fault.
pub fn apply_reply(volt: &Quantity, curr: &Quantity, r: Result<ApplyResult, String>) -> (h: Handled)
    ensures
        h@ == apply_answer(
            volt.shown@,
            curr.shown@,
            match r {
                Ok(a) => Ok((a.volt@, a.curr@)),
                Err(e) => Err(e@),
            },
        ),
{
    match r {
        Ok(a) => {
            let mut note: String = "apply ".to_string();
            note.append(&volt.shown);
            note.append("V ");
            note.append(&curr.shown);
            note.append("A");
            let m = [
                Member { key: "volt", value: &a.volt },
                Member { key: "curr", value: &a.curr },
            ];
            let body = object_text(&m);
            proof {
                assert(pairs(m@) =~= seq![("volt"@, a.volt@), ("curr"@, a.curr@)]);
            }
            Handled { note: Some(note), next: Next::Reply(succeed("application/json", body)) }
        },
        Err(e) => {
            let code: u16 = if contains(&e, "範囲外") || contains(&e, "超過") {
                400
            } else {
                500
            };
            reply(refuse(code, "application/json", object_of_one("error", &e)))
        },
    }
}

/// What a request is answered in the end: what was decided on it, where that
/// was a reply, and otherwise what the supply did.
pub open spec fn conclusion(next: NextView, outcome: Result<Transaction, String>) -> HandledView {
    match next {
        NextView::Reply(r) => answer(r),
        NextView::Status => status_answer(
            match outcome {
                Ok(t) => Ok(status_values(t@.replies)),
                Err(e) => Err(e@),
            },
        ),
        NextView::Output { on } => outp_answer(
            on,
            match outcome {
                Ok(t) => Ok(t@.replies[0]),
                Err(e) => Err(e@),
            },
        ),
        NextView::Apply { volt, curr } => apply_answer(
            volt.1,
            curr.1,
            match outcome {
                Ok(t) => Ok((t@.replies[0], t@.replies[1])),
                Err(e) => Err(e@),
            },
        ),
    }
}

/// Answers a request after the supply has been made to do what it led to:
/// `outcome` is the transaction, carried through, or the error that ended it
/// or that kept it from being begun.
pub fn conclude(next: Next, outcome: Result<Transaction, String>) -> (h: Handled)
    requires
        outcome matches Ok(t) ==> t.wf() && t@.finished() && (next is Reply || script_for(next@) == Some(
            t@.script,
        )),
    ensures
        h@ == conclusion(next@, outcome),
        h.next is Reply,
{
    proof {
        law_scripts_ask_for_their_outcome(0, 0, true, Seq::empty());
        law_scripts_ask_for_their_outcome(0, 0, false, Seq::empty());
        if let NextView::Apply { volt, curr } = next@ {
            law_scripts_ask_for_their_outcome(volt.0, curr.0, false, Seq::empty());
        }
    }
    match next {
        Next::Reply(r) => reply(r),
        Next::Status => match outcome {
            Ok(t) => {
                let s = snapshot(&t);
                proof {
                    assert(status_members(s) =~= status_values(t@.replies));
                }
                status_reply(Ok(s))
            },
            Err(e) => status_reply(Err(e)),
        },
        Next::Output { on } => match outcome {
            Ok(t) => outp_reply(on, Ok(reply_text(&t))),
            Err(e) => outp_reply(on, Err(e)),
        },
        Next::Apply { volt, curr } => match outcome {
            Ok(t) => apply_reply(&volt, &curr, Ok(apply_result(&t))),
            Err(e) => apply_reply(&volt, &curr, Err(e)),
        },
    }
}

// What holds of every request.

/// At level 0 nothing that a client asks for reaches the supply but the
/// reading of its state.
pub proof fn law_level_0_only_watches(
    route: Route,
    authed: bool,
    on: Option<bool>,
    volt: Option<(u64, Seq<char>)>,
    curr: Option<(u64, Seq<char>)>,
    qr: Result<Seq<char>, Seq<char>>,
)
    ensures
        ({
            let next = decision(route, 0, authed, on, volt, curr, qr).next;
            next is Reply || next is Status
        }),
{
}

/// At level 1 a client can switch the output off, and change nothing else.
pub proof fn law_level_1_only_switches_off(
    route: Route,
    authed: bool,
    on: Option<bool>,
    volt: Option<(u64, Seq<char>)>,
    curr: Option<(u64, Seq<char>)>,
    qr: Result<Seq<char>, Seq<char>>,
)
    ensures
        ({
            let next = decision(route, 1, authed, on, volt, curr, qr).next;
            next is Reply || next is Status || next == NextView::Output { on: false }
        }),
        decision(Route::Outp, 1, authed, Some(false), volt, curr, qr).next == (NextView::Output {
            on: false,
        }),
{
}

/// At level 2 a client without the token can change nothing.
pub proof fn law_level_2_needs_the_token(
    route: Route,
    on: Option<bool>,
    volt: Option<(u64, Seq<char>)>,
    curr: Option<(u64, Seq<char>)>,
    qr: Result<Seq<char>, Seq<char>>,
)
    ensures
        ({
            let next = decision(route, 2, false, on, volt, curr, qr).next;
            next is Reply || next is Status
        }),
{
}

/// At level 2 a client with the token can switch the output both ways and set
/// voltage and current.
pub proof fn law_level_2_with_the_token_does_all(
    on: Option<bool>,
    volt: Option<(u64, Seq<char>)>,
    curr: Option<(u64, Seq<char>)>,
    qr: Result<Seq<char>, Seq<char>>,
)
    ensures
        on matches Some(b) ==> decision(Route::Outp, 2, true, on, volt, curr, qr).next == (
        NextView::Output { on: b }),
        volt matches Some(v) ==> curr matches Some(c) ==> decision(
            Route::Apply,
            2,
            true,
            on,
            volt,
            curr,
            qr,
        ).next == (NextView::Apply { volt: v, curr: c }),
{
}

/// A request that asks for a change which its level or its want of the token
/// does not allow is answered with status 403, and noted.
pub proof fn law_refused_change_is_answered_403_and_noted(
    level: u8,
    authed: bool,
    on: bool,
    volt: Option<(u64, Seq<char>)>,
    curr: Option<(u64, Seq<char>)>,
    qr: Result<Seq<char>, Seq<char>>,
)
    requires
        level <= 2,
    ensures
        ({
            let h = decision(Route::Outp, level, authed, Some(on), volt, curr, qr);
            h.next is Output || (h.note is Some && (h.next matches NextView::Reply(r) && r.code == 403))
        }),
        ({
            let h = decision(Route::Apply, level, authed, Some(on), volt, curr, qr);
            !(level == 2 && authed) ==> (h.note is Some && (h.next matches NextView::Reply(r) && r.code
                == 403))
        }),
{
}

/// The step writes the command.
pub open spec fn sends(step: StepView, command: Seq<char>) -> bool {
    step matches StepView::Send(_, c) && c == command
}

/// A command stands in the script by which a request is carried out.
pub open spec fn commands(next: NextView, command: Seq<char>) -> bool {
    script_for(next) matches Some(script) && exists|i: int|
        0 <= i < script.len() && sends(#[trigger] script[i], command)
}

/// No command reaches the supply from a client at level 0, none but the one
/// that switches the output off from a client at level 1, and none from a
/// client without the token at level 2.
pub proof fn law_commands_that_reach_the_supply(
    route: Route,
    level: u8,
    authed: bool,
    on: Option<bool>,
    volt: Option<(u64, Seq<char>)>,
    curr: Option<(u64, Seq<char>)>,
    qr: Result<Seq<char>, Seq<char>>,
    command: Seq<char>,
)
    requires
        level < 2 || (level == 2 && !authed),
        commands(decision(route, level, authed, on, volt, curr, qr).next, command),
    ensures
        level == 1,
        command == "OUTP OFF"@,
{
    let next = decision(route, level, authed, on, volt, curr, qr).next;
    law_level_0_only_watches(route, authed, on, volt, curr, qr);
    law_level_1_only_switches_off(route, authed, on, volt, curr, qr);
    law_level_2_needs_the_token(route, on, volt, curr, qr);
    let script = script_for(next)->0;
    let i = choose|i: int| 0 <= i < script.len() && sends(#[trigger] script[i], command);
    if next is Status {
        assert(script[i] is Ask);
    } else {
        assert(script == outp_script(false));
        assert(i == 2);
    }
}

/// Whatever change a client asks for, a device that is not an SPE6103 is written
/// nothing but the query for its name.
pub proof fn law_clients_send_no_command_to_strangers(next: NextView, answers: Seq<Seq<char>>)
    requires
        answers.len() == 0 || !is_spe6103(answers[0]),
        script_for(next) is Some,
        !(next is Status),
    ensures
        dialogue(script_for(next)->0, answers) == seq![line_of("*IDN?"@)],
{
    match next {
        NextView::Output { on } => law_strangers_get_no_command(0, 0, on, answers),
        NextView::Apply { volt, curr } => law_strangers_get_no_command(volt.0, curr.0, true, answers),
        _ => {},
    }
}

/// Every change that a client made to the supply is noted, and answered with
/// status 200.
pub proof fn law_changes_are_noted(next: NextView, t: Transaction)
    requires
        next is Output || next is Apply,
    ensures
        conclusion(next, Ok(t)).note is Some,
        conclusion(next, Ok(t)).next matches NextView::Reply(r) && r.code == 200,
{
}

/// A setting that the supply does not have is answered with status 400.
pub proof fn law_setting_out_of_limits_is_answered_400(volt: Quantity, curr: Quantity, e: String)
    requires
        va_error(volt, curr) == Some(e@),
    ensures
        conclusion((Next::Apply { volt, curr })@, Err(e)).next matches NextView::Reply(r) && r.code
            == 400,
{
    reveal_strlit("範囲外: ");
    reveal_strlit("範囲外");
    reveal_strlit("電力超過: ");
    reveal_strlit("超過");
    reveal_strlit("V");
    reveal_strlit("A");
    if crate::limits::volt_in_range(volt.bits) && crate::limits::curr_in_range(curr.bits) {
        assert(e@ == power_message(volt, curr));
        assert(e@.subrange(2, 4) =~= "超過"@);
        assert(occurs_at(e@, "超過"@, 2));
    } else {
        assert(e@.subrange(1, 4) =~= "範囲外"@);
        assert(occurs_at(e@, "範囲外"@, 1));
    }
}

// What clients are answered, word by word.

/// The reply has this status, this type and this body.
pub open spec fn says(next: NextView, code: u16, text: Seq<char>, ctype: Seq<char>, body: Seq<char>) -> bool {
    next matches NextView::Reply(r) && r.code == code && r.text == text && r.ctype == ctype && r.body == body
}

/// The places of the server are these five, each for one method alone.
pub proof fn law_places_of_the_server(method: Seq<char>, path: Seq<char>)
    ensures
        route_of(method, path) is Page <==> method == "GET"@ && (path == "/"@ || path == "/index.html"@),
        route_of(method, path) is Qr <==> method == "GET"@ && path == "/qr"@,
        route_of(method, path) is Status <==> method == "GET"@ && path == "/api/status"@,
        route_of(method, path) is Outp <==> method == "POST"@ && path == "/api/outp"@,
        route_of(method, path) is Apply <==> method == "POST"@ && path == "/api/apply"@,
{
    reveal_strlit("GET");
    reveal_strlit("POST");
    reveal_strlit("/");
    reveal_strlit("/index.html");
    reveal_strlit("/qr");
    reveal_strlit("/api/status");
    reveal_strlit("/api/outp");
    reveal_strlit("/api/apply");
    assert("GET"@.len() == 3 && "POST"@.len() == 4);
    assert("/"@.len() == 1 && "/index.html"@.len() == 11 && "/qr"@.len() == 3 && "/api/status"@.len() == 11);
    assert("/api/outp"@.len() == 9 && "/api/apply"@.len() == 10);
    assert("/index.html"@[1] != "/api/status"@[1]);
}

/// A request to switch the output is answered by its body, the level and the
/// token, in this order, and by nothing else.
pub proof fn law_answers_to_switching(
    level: u8,
    authed: bool,
    on: Option<bool>,
    volt: Option<(u64, Seq<char>)>,
    curr: Option<(u64, Seq<char>)>,
    qr: Result<Seq<char>, Seq<char>>,
)
    ensures
        ({
            let h = decision(Route::Outp, level, authed, on, volt, curr, qr);
            match on {
                None => h.note is None && says(h.next, 400, "ERR"@, "text/plain"@, "bad body"@),
                Some(b) => if level == 0 {
                    h.note == Some("DENY outp (Lv0)"@) && says(
                        h.next,
                        403,
                        "ERR"@,
                        "text/plain"@,
                        "Lv0は監視のみ"@,
                    )
                } else if level == 1 && b {
                    h.note == Some("DENY outp ON (Lv1はOFFのみ)"@) && says(
                        h.next,
                        403,
                        "ERR"@,
                        "text/plain"@,
                        "Lv1は出力OFFのみ"@,
                    )
                } else if level == 2 && !authed {
                    h.note == Some("DENY outp (token)"@) && says(
                        h.next,
                        403,
                        "ERR"@,
                        "text/plain"@,
                        "token required"@,
                    )
                } else {
                    h.note is None && h.next == (NextView::Output { on: b })
                },
            }
        }),
{
}

/// A request to set voltage and current is answered by the level and the token,
/// and then by whether its body has both numbers. What is set is what it has.
pub proof fn law_answers_to_setting(
    level: u8,
    authed: bool,
    on: Option<bool>,
    volt: Option<(u64, Seq<char>)>,
    curr: Option<(u64, Seq<char>)>,
    qr: Result<Seq<char>, Seq<char>>,
)
    ensures
        ({
            let h = decision(Route::Apply, level, authed, on, volt, curr, qr);
            if level != 2 || !authed {
                h.note == Some("DENY apply (Lv2+token required)"@) && says(
                    h.next,
                    403,
                    "ERR"@,
                    "text/plain"@,
                    "Lv2+token required"@,
                )
            } else if volt is None || curr is None {
                h.note is None && says(h.next, 400, "ERR"@, "text/plain"@, "bad body"@)
            } else {
                h.note is None && (h.next matches NextView::Apply { volt: v, curr: c } && volt == Some(v) && curr
                    == Some(c))
            }
        }),
{
}

/// The page, the QR code and the state of the supply are for everybody, at every
/// level, and other places there are none.
pub proof fn law_answers_to_watching(
    level: u8,
    authed: bool,
    on: Option<bool>,
    volt: Option<(u64, Seq<char>)>,
    curr: Option<(u64, Seq<char>)>,
    qr: Result<Seq<char>, Seq<char>>,
)
    ensures
        ({
            let h = decision(Route::Page, level, authed, on, volt, curr, qr);
            h.note is None && says(h.next, 200, "OK"@, "text/html; charset=utf-8"@, page(level))
        }),
        ({
            let h = decision(Route::Qr, level, authed, on, volt, curr, qr);
            h.note is None && match qr {
                Ok(svg) => says(h.next, 200, "OK"@, "image/svg+xml"@, svg),
                Err(e) => says(h.next, 500, "ERR"@, "text/plain"@, e),
            }
        }),
        ({
            let h = decision(Route::Status, level, authed, on, volt, curr, qr);
            h.note is None && h.next is Status
        }),
        ({
            let h = decision(Route::Missing, level, authed, on, volt, curr, qr);
            h.note is None && says(h.next, 404, "ERR"@, "text/plain"@, "not found"@)
        }),
{
}

/// What was decided is what the supply is made to do: the output is switched as
/// it was asked for, voltage and current are set to what was asked for, and the
/// state is only read.
pub proof fn law_supply_does_what_was_decided(
    on: bool,
    volt: (u64, Seq<char>),
    curr: (u64, Seq<char>),
    answers: Seq<Seq<char>>,
)
    requires
        answers.len() >= 3,
        is_spe6103(answers[0]),
    ensures
        script_for(NextView::Output { on }) matches Some(s) && dialogue(s, answers) == seq![
            line_of("*IDN?"@),
            line_of(if on { "OUTP ON"@ } else { "OUTP OFF"@ }),
            line_of("OUTP?"@),
        ],
        deliverable(volt.0, curr.0) ==> (script_for(NextView::Apply { volt, curr }) matches Some(s) && dialogue(
            s,
            answers,
        ) == seq![
            line_of("*IDN?"@),
            line_of("VOLT "@ + fixed(volt.0)),
            line_of("CURR "@ + fixed(curr.0)),
            line_of("VOLT?"@),
            line_of("CURR?"@),
        ]),
        !deliverable(volt.0, curr.0) ==> script_for(NextView::Apply { volt, curr }) is None,
        script_for(NextView::Status) == Some(poll_script()),
{
    law_outp_dialogue(on, answers);
    law_apply_dialogue(volt.0, curr.0, answers);
}

/// The body is a JSON object that reads back as these members.
pub open spec fn holds(next: NextView, code: u16, text: Seq<char>, members: Seq<(Seq<char>, Seq<char>)>) -> bool {
    next matches NextView::Reply(r) && r.code == code && r.text == text && r.ctype == "application/json"@
        && read_object(r.body, members.len()) == Some(members)
}

/// The state of the supply, as a client reads it, has under each name what the
/// supply replied to the query for it.
pub proof fn law_status_reply_has_the_replies_of_the_supply(t: Transaction)
    requires
        t@.script == poll_script(),
        t@.replies.len() == 9,
        forall|i: int| 0 <= i < 9 ==> printable(#[trigger] t@.replies[i]),
    ensures
        conclusion(NextView::Status, Ok(t)).note is None,
        conclusion(NextView::Status, Ok(t)).next matches NextView::Reply(r) && (read_object(r.body, 9) matches Some(m)
            && {
            &&& holds(NextView::Reply(r), 200, "OK"@, m)
            &&& m.len() == 9
            &&& m[0].0 == "set_volt"@ && is_reply_to(t@, "VOLT?"@, m[0].1)
            &&& m[1].0 == "set_curr"@ && is_reply_to(t@, "CURR?"@, m[1].1)
            &&& m[2].0 == "lim_volt"@ && is_reply_to(t@, "VOLT:LIM?"@, m[2].1)
            &&& m[3].0 == "lim_curr"@ && is_reply_to(t@, "CURR:LIM?"@, m[3].1)
            &&& m[4].0 == "meas_volt"@ && is_reply_to(t@, "MEAS:VOLT?"@, m[4].1)
            &&& m[5].0 == "meas_curr"@ && is_reply_to(t@, "MEAS:CURR?"@, m[5].1)
            &&& m[6].0 == "meas_pow"@ && is_reply_to(t@, "MEAS:POW?"@, m[6].1)
            &&& m[7].0 == "info"@ && is_reply_to(t@, "MEAS:ALL:INFO?"@, m[7].1)
            &&& m[8].0 == "outp"@ && is_reply_to(t@, "OUTP?"@, m[8].1)
        }),
{
    let p = status_values(t@.replies);
    reveal_strlit("set_volt");
    reveal_strlit("set_curr");
    reveal_strlit("lim_volt");
    reveal_strlit("lim_curr");
    reveal_strlit("meas_volt");
    reveal_strlit("meas_curr");
    reveal_strlit("meas_pow");
    reveal_strlit("info");
    reveal_strlit("outp");
    assert forall|i: int| 0 <= i < p.len() implies plain(#[trigger] p[i].0) && printable(p[i].1) by {
        assert(printable(t@.replies[i]));
    }
    law_object_reads_back(p);
    law_status_members_answer_their_queries(t@);
}

/// A client that switched the output reads the reply of the supply to the query
/// for it, and the note has it too.
pub proof fn law_switching_reply_has_the_reply_of_the_supply(t: Transaction, on: bool)
    requires
        t@.script == outp_script(on),
        t@.replies.len() == 1,
        printable(t@.replies[0]),
    ensures
        ({
            let h = conclusion(NextView::Output { on }, Ok(t));
            let reply = t@.replies[0];
            &&& is_reply_to(t@, "OUTP?"@, reply)
            &&& holds(h.next, 200, "OK"@, seq![("outp"@, reply)])
            &&& h.note == Some(
                (if on {
                    "outp on=true -> "@
                } else {
                    "outp on=false -> "@
                }) + reply,
            )
        }),
{
    let reply = t@.replies[0];
    law_outp_reply_answers_its_query(t@, on);
    reveal_strlit("outp");
    law_object_reads_back(seq![("outp"@, reply)]);
    reveal_strlit("outp on=");
    reveal_strlit("true");
    reveal_strlit("false");
    reveal_strlit(" -> ");
    reveal_strlit("outp on=true -> ");
    reveal_strlit("outp on=false -> ");
    assert("outp on="@ + "true"@ + " -> "@ =~= "outp on=true -> "@);
    assert("outp on="@ + "false"@ + " -> "@ =~= "outp on=false -> "@);
}

/// A client that set voltage and current reads the replies of the supply to the
/// queries for them, and the note has what was asked for.
pub proof fn law_setting_reply_has_the_replies_of_the_supply(
    t: Transaction,
    volt: (u64, Seq<char>),
    curr: (u64, Seq<char>),
)
    requires
        t@.script == apply_script(volt.0, curr.0),
        t@.replies.len() == 2,
        printable(t@.replies[0]),
        printable(t@.replies[1]),
    ensures
        ({
            let h = conclusion(NextView::Apply { volt, curr }, Ok(t));
            let v = t@.replies[0];
            let c = t@.replies[1];
            &&& is_reply_to(t@, "VOLT?"@, v) && is_reply_to(t@, "CURR?"@, c)
            &&& holds(h.next, 200, "OK"@, seq![("volt"@, v), ("curr"@, c)])
            &&& h.note == Some("apply "@ + volt.1 + "V "@ + curr.1 + "A"@)
        }),
{
    law_apply_replies_answer_their_queries(t@, volt.0, curr.0);
    reveal_strlit("volt");
    reveal_strlit("curr");
    law_object_reads_back(seq![("volt"@, t@.replies[0]), ("curr"@, t@.replies[1])]);
}

/// A failure is told to the client in the member `error`, with a status that
/// says whose fault it is, and nothing is noted.
pub proof fn law_failures_are_told(
    on: bool,
    volt: (u64, Seq<char>),
    curr: (u64, Seq<char>),
    e: String,
)
    requires
        printable(e@),
    ensures
        conclusion(NextView::Status, Err(e)).note is None,
        holds(conclusion(NextView::Status, Err(e)).next, 503, "ERR"@, seq![("error"@, e@)]),
        conclusion(NextView::Output { on }, Err(e)).note is None,
        holds(conclusion(NextView::Output { on }, Err(e)).next, 500, "ERR"@, seq![("error"@, e@)]),
        conclusion(NextView::Apply { volt, curr }, Err(e)).note is None,
        holds(
            conclusion(NextView::Apply { volt, curr }, Err(e)).next,
            if has(e@, "範囲外"@) || has(e@, "超過"@) {
                400
            } else {
                500
            },
            "ERR"@,
            seq![("error"@, e@)],
        ),
{
    reveal_strlit("error");
    law_object_reads_back(seq![("error"@, e@)]);
}

/// A reply that was decided on is the one that is given.
pub proof fn law_decided_reply_is_given(r: ResponseView, outcome: Result<Transaction, String>)
    ensures
        conclusion(NextView::Reply(r), outcome).next == NextView::Reply(r),
        conclusion(NextView::Reply(r), outcome).note is None,
{
}

/// A quantity in a body counts with its value and with the text in which it is
/// shown.
pub proof fn law_quantity_in_a_body(q: Quantity)
    ensures
        number(Some(q)) == Some((q.bits, q.shown@)),
        number(None) is None,
{
}

} // verus!
