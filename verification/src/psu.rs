//! The operations on the supply, each as a transaction, and what their replies
//! amount to.

use vstd::prelude::*;

use crate::double::{fixed, fixed_text};
use crate::json::{law_object_reads_back, object, object_text, pairs, plain, printable, read_object, Member};
use crate::limits::{
    check_protect, check_va, curr_in_range, deliverable, protect_error, va_error, volt_in_range, Quantity,
};
use crate::scpi::{
    asks, failure, failure_text, guarded, is_reply_to, is_spe6103, lemma_asks_step, script_of, Step, StepView, Transaction,
    TransactionView,
};

verus! {

/// The line speed of the serial port.
pub const BAUD: u32 = 115200;

/// How long to wait for a reply to a command, in milliseconds, where the
/// caller does not say.
pub const COMMAND_TIMEOUT_MS: u64 = 1500;

/// How long to wait for a reply to a poll, in milliseconds, where the caller
/// does not say.
pub const POLL_TIMEOUT_MS: u64 = 1200;

/// The time that was asked for, or the usual one.
pub open spec fn timeout_or(asked: Option<u64>, usual: u64) -> u64 {
    match asked {
        Some(ms) => ms,
        None => usual,
    }
}

pub(crate) fn timeout(asked: Option<u64>, usual: u64) -> (ms: u64)
    ensures
        ms == timeout_or(asked, usual),
{
    match asked {
        Some(ms) => ms,
        None => usual,
    }
}

/// The message on a port that does not open.
pub open spec fn open_failure(port: Seq<char>, error: Seq<char>) -> Seq<char> {
    failure("open "@ + port, error)
}

/// The message on a port that does not open.
pub fn open_error(port: &str, error: &str) -> (s: String)
    ensures
        s@ == open_failure(port@, error@),
{
    let mut what: String = "open ".to_string();
    what.append(port);
    failure_text(&what, error)
}

/// What goes out on the line for a command: the command and a line feed.
pub open spec fn line_of(command: Seq<char>) -> Seq<char> {
    command + seq!['\n']
}

/// The line for a command.
pub fn command_line(command: &str) -> (s: String)
    ensures
        s@ == line_of(command@),
{
    let mut s: String = command.to_string();
    s.push('\n');
    proof {
        assert(s@ =~= line_of(command@));
    }
    s
}

/// What a step writes on the line.
pub open spec fn written(step: StepView) -> Option<Seq<char>> {
    match step {
        StepView::Pause(_) => None,
        StepView::Guard => Some(line_of("*IDN?"@)),
        StepView::Send(_, command) => Some(line_of(command)),
        StepView::Ask(query) => Some(line_of(query)),
    }
}

/// What a step writes on the line, if it writes anything.
pub fn step_line(step: &Step) -> (r: Option<String>)
    ensures
        match r {
            Some(s) => written(step@) == Some(s@),
            None => written(step@) is None,
        },
{
    match step {
        Step::Pause(_) => None,
        Step::Guard => Some(command_line("*IDN?")),
        Step::Send { label: _, command } => Some(command_line(command)),
        Step::Ask(query) => Some(command_line(query)),
    }
}

/// The message on a line that could not be written: a command names itself, a
/// query does not.
pub open spec fn write_failure(step: StepView, error: Seq<char>) -> Seq<char> {
    match step {
        StepView::Send(label, _) => failure(label, error),
        _ => failure("write"@, error),
    }
}

/// The message on a line that could not be written.
pub fn write_error(step: &Step, error: &str) -> (s: String)
    ensures
        s@ == write_failure(step@, error@),
{
    match step {
        Step::Send { label, command: _ } => failure_text(label, error),
        _ => failure_text("write", error),
    }
}

// The scripts.

/// The steps that only find out whether the device is an SPE6103.
pub open spec fn identify_script() -> Seq<StepView> {
    seq![StepView::Pause(200), StepView::Guard]
}

/// The steps that set voltage and current and read both back.
pub open spec fn apply_script(volt: u64, curr: u64) -> Seq<StepView> {
    seq![
        StepView::Pause(200),
        StepView::Guard,
        StepView::Send("write VOLT"@, "VOLT "@ + fixed(volt)),
        StepView::Pause(200),
        StepView::Send("write CURR"@, "CURR "@ + fixed(curr)),
        StepView::Pause(200),
        StepView::Ask("VOLT?"@),
        StepView::Ask("CURR?"@),
    ]
}

/// The steps that switch the output and read it back.
pub open spec fn outp_script(on: bool) -> Seq<StepView> {
    seq![
        StepView::Pause(200),
        StepView::Guard,
        StepView::Send("write"@, if on { "OUTP ON"@ } else { "OUTP OFF"@ }),
        StepView::Pause(300),
        StepView::Ask("OUTP?"@),
    ]
}

/// The steps that set the protection limits and read both back.
pub open spec fn protect_script(ovp: u64, ocp: u64) -> Seq<StepView> {
    seq![
        StepView::Pause(200),
        StepView::Guard,
        StepView::Send("write OVP"@, "VOLT:LIM "@ + fixed(ovp)),
        StepView::Pause(200),
        StepView::Send("write OCP"@, "CURR:LIM "@ + fixed(ocp)),
        StepView::Pause(200),
        StepView::Ask("VOLT:LIM?"@),
        StepView::Ask("CURR:LIM?"@),
    ]
}

/// The step that makes one query.
pub open spec fn query_script(query: Seq<char>) -> Seq<StepView> {
    seq![StepView::Ask(query)]
}

/// The steps that read the state of the supply.
pub open spec fn poll_script() -> Seq<StepView> {
    seq![
        StepView::Ask("VOLT?"@),
        StepView::Ask("CURR?"@),
        StepView::Ask("VOLT:LIM?"@),
        StepView::Ask("CURR:LIM?"@),
        StepView::Ask("MEAS:VOLT?"@),
        StepView::Ask("MEAS:CURR?"@),
        StepView::Ask("MEAS:POW?"@),
        StepView::Ask("MEAS:ALL:INFO?"@),
        StepView::Ask("OUTP?"@),
    ]
}

/// A transaction that has just begun, with this script on this port.
pub open spec fn begun(t: Transaction, port: Seq<char>, timeout_ms: u64, script: Seq<StepView>) -> bool {
    &&& t.wf()
    &&& t@ == (TransactionView { port, timeout_ms, script, at: 0, idn: None, replies: Seq::empty() })
}

fn ask(query: &str) -> (s: Step)
    ensures
        s@ == StepView::Ask(query@),
{
    Step::Ask(query.to_string())
}

fn send(label: &str, command: String) -> (s: Step)
    ensures
        s@ == StepView::Send(label@, command@),
{
    Step::Send { label: label.to_string(), command }
}

fn setting(name: &str, bits: u64) -> (s: String)
    requires
        volt_in_range(bits),
    ensures
        s@ == name@ + fixed(bits),
{
    let mut s: String = name.to_string();
    s.append(&fixed_text(bits));
    s
}

/// A current in range is a number in the range of voltages too.
proof fn lemma_curr_is_small(bits: u64)
    requires
        curr_in_range(bits),
    ensures
        volt_in_range(bits),
{
    assert(10 * crate::double::one() <= 60 * crate::double::one()) by (nonlinear_arith);
}

/// Begins to find out whether the device on a port is an SPE6103.
pub fn psu_identify(port: &str, timeout_ms: Option<u64>) -> (t: Transaction)
    ensures
        begun(t, port@, timeout_or(timeout_ms, COMMAND_TIMEOUT_MS), identify_script()),
{
    let steps = vec![Step::Pause(200), Step::Guard];
    proof {
        assert(script_of(steps@) =~= identify_script());
    }
    Transaction::begin(port, timeout(timeout_ms, COMMAND_TIMEOUT_MS), steps)
}

/// Begins to set voltage and current, where the supply has them.
pub fn scpi_apply(port: &str, volt: &Quantity, curr: &Quantity, timeout_ms: u64) -> (r: Result<
    Transaction,
    String,
>)
    ensures
        match r {
            Ok(t) => deliverable(volt.bits, curr.bits) && begun(
                t,
                port@,
                timeout_ms,
                apply_script(volt.bits, curr.bits),
            ),
            Err(e) => !deliverable(volt.bits, curr.bits) && va_error(*volt, *curr) == Some(e@),
        },
{
    match check_va(volt, curr) {
        Ok(_) => {},
        Err(e) => {
            return Err(e);
        },
    }
    proof {
        lemma_curr_is_small(curr.bits);
    }
    let steps = vec![
        Step::Pause(200),
        Step::Guard,
        send("write VOLT", setting("VOLT ", volt.bits)),
        Step::Pause(200),
        send("write CURR", setting("CURR ", curr.bits)),
        Step::Pause(200),
        ask("VOLT?"),
        ask("CURR?"),
    ];
    proof {
        assert(script_of(steps@) =~= apply_script(volt.bits, curr.bits));
        lemma_guarded(apply_script(volt.bits, curr.bits));
    }
    Ok(Transaction::begin(port, timeout_ms, steps))
}

/// A script that asks for the name in its second step and waits in its first
/// is guarded.
proof fn lemma_guarded(script: Seq<StepView>)
    requires
        script.len() >= 2,
        script[0] is Pause,
        script[1] is Guard,
    ensures
        guarded(script),
{
    assert forall|i: int| 0 <= i < script.len() && (#[trigger] script[i] is Send) implies exists|
        j: int,
    |
        0 <= j < i && script[j] is Guard by {
        assert(0 <= 1 < i && script[1] is Guard);
    }
}

/// Begins to set voltage and current, where the supply has them.
pub fn psu_apply(port: &str, volt: &Quantity, curr: &Quantity, timeout_ms: Option<u64>) -> (r: Result<
    Transaction,
    String,
>)
    ensures
        match r {
            Ok(t) => deliverable(volt.bits, curr.bits) && begun(
                t,
                port@,
                timeout_or(timeout_ms, COMMAND_TIMEOUT_MS),
                apply_script(volt.bits, curr.bits),
            ),
            Err(e) => !deliverable(volt.bits, curr.bits) && va_error(*volt, *curr) == Some(e@),
        },
{
    scpi_apply(port, volt, curr, timeout(timeout_ms, COMMAND_TIMEOUT_MS))
}

/// Begins to switch the output.
pub fn scpi_outp(port: &str, on: bool, timeout_ms: u64) -> (t: Transaction)
    ensures
        begun(t, port@, timeout_ms, outp_script(on)),
{
    let command = if on {
        "OUTP ON"
    } else {
        "OUTP OFF"
    };
    let steps = vec![
        Step::Pause(200),
        Step::Guard,
        send("write", command.to_string()),
        Step::Pause(300),
        ask("OUTP?"),
    ];
    proof {
        assert(script_of(steps@) =~= outp_script(on));
        lemma_guarded(outp_script(on));
    }
    Transaction::begin(port, timeout_ms, steps)
}

/// Begins to switch the output.
pub fn psu_outp(port: &str, on: bool, timeout_ms: Option<u64>) -> (t: Transaction)
    ensures
        begun(t, port@, timeout_or(timeout_ms, COMMAND_TIMEOUT_MS), outp_script(on)),
{
    scpi_outp(port, on, timeout(timeout_ms, COMMAND_TIMEOUT_MS))
}

/// Begins to set the protection limits, where the supply has them.
pub fn psu_protect(port: &str, ovp: &Quantity, ocp: &Quantity, timeout_ms: Option<u64>) -> (r: Result<
    Transaction,
    String,
>)
    ensures
        match r {
            Ok(t) => volt_in_range(ovp.bits) && curr_in_range(ocp.bits) && begun(
                t,
                port@,
                timeout_or(timeout_ms, COMMAND_TIMEOUT_MS),
                protect_script(ovp.bits, ocp.bits),
            ),
            Err(e) => protect_error(*ovp, *ocp) == Some(e@),
        },
{
    match check_protect(ovp, ocp) {
        Ok(_) => {},
        Err(e) => {
            return Err(e);
        },
    }
    proof {
        lemma_curr_is_small(ocp.bits);
    }
    let steps = vec![
        Step::Pause(200),
        Step::Guard,
        send("write OVP", setting("VOLT:LIM ", ovp.bits)),
        Step::Pause(200),
        send("write OCP", setting("CURR:LIM ", ocp.bits)),
        Step::Pause(200),
        ask("VOLT:LIM?"),
        ask("CURR:LIM?"),
    ];
    proof {
        assert(script_of(steps@) =~= protect_script(ovp.bits, ocp.bits));
        lemma_guarded(protect_script(ovp.bits, ocp.bits));
    }
    Ok(Transaction::begin(port, timeout(timeout_ms, COMMAND_TIMEOUT_MS), steps))
}

/// Begins one query, as it was typed.
pub fn psu_query(port: &str, query: &str, timeout_ms: Option<u64>) -> (t: Transaction)
    ensures
        begun(t, port@, timeout_or(timeout_ms, COMMAND_TIMEOUT_MS), query_script(query@)),
{
    let steps = vec![ask(query)];
    proof {
        assert(script_of(steps@) =~= query_script(query@));
    }
    Transaction::begin(port, timeout(timeout_ms, COMMAND_TIMEOUT_MS), steps)
}

/// Begins to read the state of the supply.
pub fn psu_poll(port: &str, timeout_ms: Option<u64>) -> (t: Transaction)
    ensures
        begun(t, port@, timeout_or(timeout_ms, POLL_TIMEOUT_MS), poll_script()),
{
    let steps = vec![
        ask("VOLT?"),
        ask("CURR?"),
        ask("VOLT:LIM?"),
        ask("CURR:LIM?"),
        ask("MEAS:VOLT?"),
        ask("MEAS:CURR?"),
        ask("MEAS:POW?"),
        ask("MEAS:ALL:INFO?"),
        ask("OUTP?"),
    ];
    proof {
        assert(script_of(steps@) =~= poll_script());
    }
    Transaction::begin(port, timeout(timeout_ms, POLL_TIMEOUT_MS), steps)
}

// The outcomes.

/// Voltage and current as the supply reads them back.
#[derive(Debug, PartialEq, Eq)]
pub struct ApplyResult {
    pub volt: String,
    pub curr: String,
}

/// The protection limits as the supply reads them back.
#[derive(Debug, PartialEq, Eq)]
pub struct ProtectResult {
    pub ovp: String,
    pub ocp: String,
}

/// The state of the supply, each entry as the supply gave it.
#[derive(Debug, PartialEq, Eq)]
pub struct Snapshot {
    pub set_volt: String,
    pub set_curr: String,
    pub lim_volt: String,
    pub lim_curr: String,
    pub meas_volt: String,
    pub meas_curr: String,
    pub meas_pow: String,
    pub info: String,
    pub outp: String,
}

/// A transaction has been carried through, with so many replies.
pub open spec fn answered(t: Transaction, n: nat) -> bool {
    t.wf() && t@.finished() && asks(t@.script) == n
}

proof fn lemma_answered(t: Transaction, n: nat)
    requires
        answered(t, n),
    ensures
        t@.replies.len() == n,
{
    assert(t@.script.take(t@.at) =~= t@.script);
}

/// The scripts have as many queries as their outcomes have entries.
pub proof fn law_scripts_ask_for_their_outcome(a: u64, b: u64, on: bool, query: Seq<char>)
    ensures
        asks(identify_script()) == 0,
        asks(apply_script(a, b)) == 2,
        asks(outp_script(on)) == 1,
        asks(protect_script(a, b)) == 2,
        asks(query_script(query)) == 1,
        asks(poll_script()) == 9,
{
    reveal_with_fuel(asks, 10);
}

/// The outcome of setting voltage and current.
pub fn apply_result(t: &Transaction) -> (r: ApplyResult)
    requires
        answered(*t, 2),
    ensures
        r.volt@ == t@.replies[0],
        r.curr@ == t@.replies[1],
{
    proof {
        lemma_answered(*t, 2);
    }
    ApplyResult { volt: t.reply(0), curr: t.reply(1) }
}

/// The outcome of setting the protection limits.
pub fn protect_result(t: &Transaction) -> (r: ProtectResult)
    requires
        answered(*t, 2),
    ensures
        r.ovp@ == t@.replies[0],
        r.ocp@ == t@.replies[1],
{
    proof {
        lemma_answered(*t, 2);
    }
    ProtectResult { ovp: t.reply(0), ocp: t.reply(1) }
}

/// The outcome of one query, or of switching the output.
pub fn reply_text(t: &Transaction) -> (r: String)
    requires
        answered(*t, 1),
    ensures
        r@ == t@.replies[0],
{
    proof {
        lemma_answered(*t, 1);
    }
    t.reply(0)
}

/// The outcome of reading the state of the supply.
pub fn snapshot(t: &Transaction) -> (r: Snapshot)
    requires
        answered(*t, 9),
    ensures
        r.set_volt@ == t@.replies[0],
        r.set_curr@ == t@.replies[1],
        r.lim_volt@ == t@.replies[2],
        r.lim_curr@ == t@.replies[3],
        r.meas_volt@ == t@.replies[4],
        r.meas_curr@ == t@.replies[5],
        r.meas_pow@ == t@.replies[6],
        r.info@ == t@.replies[7],
        r.outp@ == t@.replies[8],
{
    proof {
        lemma_answered(*t, 9);
    }
    Snapshot {
        set_volt: t.reply(0),
        set_curr: t.reply(1),
        lim_volt: t.reply(2),
        lim_curr: t.reply(3),
        meas_volt: t.reply(4),
        meas_curr: t.reply(5),
        meas_pow: t.reply(6),
        info: t.reply(7),
        outp: t.reply(8),
    }
}

/// The members of the status reply.
pub open spec fn status_members(s: Snapshot) -> Seq<(Seq<char>, Seq<char>)> {
    seq![
        ("set_volt"@, s.set_volt@),
        ("set_curr"@, s.set_curr@),
        ("lim_volt"@, s.lim_volt@),
        ("lim_curr"@, s.lim_curr@),
        ("meas_volt"@, s.meas_volt@),
        ("meas_curr"@, s.meas_curr@),
        ("meas_pow"@, s.meas_pow@),
        ("info"@, s.info@),
        ("outp"@, s.outp@),
    ]
}

/// The members of the status reply, of the replies to the nine queries.
pub open spec fn status_values(replies: Seq<Seq<char>>) -> Seq<(Seq<char>, Seq<char>)> {
    seq![
        ("set_volt"@, replies[0]),
        ("set_curr"@, replies[1]),
        ("lim_volt"@, replies[2]),
        ("lim_curr"@, replies[3]),
        ("meas_volt"@, replies[4]),
        ("meas_curr"@, replies[5]),
        ("meas_pow"@, replies[6]),
        ("info"@, replies[7]),
        ("outp"@, replies[8]),
    ]
}

/// The state of the supply as a JSON object.
pub fn device_snapshot_json(s: &Snapshot) -> (r: String)
    ensures
        r@ == object(status_members(*s)),
{
    let m = [
        Member { key: "set_volt", value: &s.set_volt },
        Member { key: "set_curr", value: &s.set_curr },
        Member { key: "lim_volt", value: &s.lim_volt },
        Member { key: "lim_curr", value: &s.lim_curr },
        Member { key: "meas_volt", value: &s.meas_volt },
        Member { key: "meas_curr", value: &s.meas_curr },
        Member { key: "meas_pow", value: &s.meas_pow },
        Member { key: "info", value: &s.info },
        Member { key: "outp", value: &s.outp },
    ];
    let r = object_text(&m);
    proof {
        assert(pairs(m@) =~= status_members(*s));
    }
    r
}

/// The status reply reads back as what the supply said, entry by entry. A reply
/// of the supply with a control character in it, other than a carriage return
/// or a line feed, would not be valid JSON.
pub proof fn law_status_reads_back(s: Snapshot)
    requires
        forall|i: int| 0 <= i < 9 ==> printable((#[trigger] status_members(s)[i]).1),
    ensures
        read_object(object(status_members(s)), 9) == Some(status_members(s)),
{
    let p = status_members(s);
    reveal_strlit("set_volt");
    reveal_strlit("set_curr");
    reveal_strlit("lim_volt");
    reveal_strlit("lim_curr");
    reveal_strlit("meas_volt");
    reveal_strlit("meas_curr");
    reveal_strlit("meas_pow");
    reveal_strlit("info");
    reveal_strlit("outp");
    assert forall|i: int| 0 <= i < p.len() implies plain(#[trigger] p[i].0) && printable(p[i].1) by {
        assert(printable(status_members(s)[i].1));
    }
    law_object_reads_back(p);
}

// What goes out on the line.

/// The lines that a script writes to a device that gives these answers, one to
/// each query, and falls silent after the last.
pub open spec fn dialogue(script: Seq<StepView>, answers: Seq<Seq<char>>) -> Seq<Seq<char>>
    decreases script.len(),
{
    if script.len() == 0 {
        Seq::empty()
    } else {
        let rest = script.skip(1);
        match script[0] {
            StepView::Pause(_) => dialogue(rest, answers),
            StepView::Send(_, command) => seq![line_of(command)] + dialogue(rest, answers),
            StepView::Guard => seq![line_of("*IDN?"@)] + (if answers.len() > 0 && is_spe6103(
                answers[0],
            ) {
                dialogue(rest, answers.skip(1))
            } else {
                Seq::empty()
            }),
            StepView::Ask(query) => seq![line_of(query)] + (if answers.len() > 0 {
                dialogue(rest, answers.skip(1))
            } else {
                Seq::empty()
            }),
        }
    }
}

/// A transaction follows its script: what it has still to write is what the
/// step at hand writes, and then what the steps after it do, for as long as
/// the answers let it go on.
pub proof fn law_transaction_follows_script(t: TransactionView, answers: Seq<Seq<char>>)
    requires
        t.wf(),
        !t.finished(),
    ensures
        ({
            let ahead = dialogue(t.script.skip(t.at), answers);
            let later = t.script.skip(t.at + 1);
            let line = match written(t.current()) {
                Some(l) => seq![l],
                None => Seq::empty(),
            };
            match t.current() {
                StepView::Pause(_) | StepView::Send(_, _) => ahead == line + dialogue(later, answers),
                StepView::Guard => ahead == line + (if answers.len() > 0 && is_spe6103(answers[0]) {
                    dialogue(later, answers.skip(1))
                } else {
                    Seq::empty()
                }),
                StepView::Ask(_) => ahead == line + (if answers.len() > 0 {
                    dialogue(later, answers.skip(1))
                } else {
                    Seq::empty()
                }),
            }
        }),
{
    let s = t.script.skip(t.at);
    assert(s.skip(1) =~= t.script.skip(t.at + 1));
    assert(s[0] == t.current());
    assert(Seq::<Seq<char>>::empty() + dialogue(s.skip(1), answers) =~= dialogue(s.skip(1), answers));
}

/// A script that begins by waiting and asking for the name writes nothing else
/// to a device that does not answer, or that is not an SPE6103.
proof fn lemma_stranger(script: Seq<StepView>, answers: Seq<Seq<char>>)
    requires
        script.len() >= 2,
        script[0] is Pause,
        script[1] is Guard,
        answers.len() == 0 || !is_spe6103(answers[0]),
    ensures
        dialogue(script, answers) == seq![line_of("*IDN?"@)],
{
    reveal_with_fuel(dialogue, 3);
    assert(script.skip(1)[0] == script[1]);
    assert(dialogue(script, answers) =~= seq![line_of("*IDN?"@)]);
}

/// A device that does not answer to its name, or answers with another one, is
/// written nothing but the query for its name, whatever was to be set.
pub proof fn law_strangers_get_no_command(volt: u64, curr: u64, on: bool, answers: Seq<Seq<char>>)
    requires
        answers.len() == 0 || !is_spe6103(answers[0]),
    ensures
        dialogue(identify_script(), answers) == seq![line_of("*IDN?"@)],
        dialogue(apply_script(volt, curr), answers) == seq![line_of("*IDN?"@)],
        dialogue(protect_script(volt, curr), answers) == seq![line_of("*IDN?"@)],
        dialogue(outp_script(on), answers) == seq![line_of("*IDN?"@)],
{
    lemma_stranger(identify_script(), answers);
    lemma_stranger(apply_script(volt, curr), answers);
    lemma_stranger(protect_script(volt, curr), answers);
    lemma_stranger(outp_script(on), answers);
}

/// Reading the state of the supply sends no command.
pub proof fn law_poll_only_asks(i: int)
    requires
        0 <= i < poll_script().len(),
    ensures
        poll_script()[i] is Ask,
{
}

/// What a pause, a command and a query add to what a script writes.
proof fn lemma_dialogue_step(script: Seq<StepView>, k: int, answers: Seq<Seq<char>>)
    requires
        0 <= k < script.len(),
    ensures
        ({
            let here = dialogue(script.skip(k), answers);
            match script[k] {
                StepView::Pause(_) => here == dialogue(script.skip(k + 1), answers),
                StepView::Send(_, command) => here == seq![line_of(command)] + dialogue(
                    script.skip(k + 1),
                    answers,
                ),
                StepView::Guard => answers.len() > 0 && is_spe6103(answers[0]) ==> here == seq![
                    line_of("*IDN?"@),
                ] + dialogue(script.skip(k + 1), answers.skip(1)),
                StepView::Ask(query) => answers.len() > 0 ==> here == seq![line_of(query)]
                    + dialogue(script.skip(k + 1), answers.skip(1)),
            }
        }),
{
    assert(script.skip(k)[0] == script[k]);
    assert(script.skip(k).skip(1) =~= script.skip(k + 1));
}

proof fn lemma_dialogue_end(script: Seq<StepView>, answers: Seq<Seq<char>>)
    ensures
        dialogue(script.skip(script.len() as int), answers) == Seq::<Seq<char>>::empty(),
{
}

/// What is written by a script of the form of those that set two values, to an
/// SPE6103 that answers every query.
proof fn lemma_setting_dialogue(s: Seq<StepView>, answers: Seq<Seq<char>>)
    requires
        s.len() == 8,
        s[0] is Pause,
        s[1] is Guard,
        s[2] is Send,
        s[3] is Pause,
        s[4] is Send,
        s[5] is Pause,
        s[6] is Ask,
        s[7] is Ask,
        answers.len() >= 3,
        is_spe6103(answers[0]),
    ensures
        dialogue(s, answers) == seq![
            line_of("*IDN?"@),
            line_of(s[2]->Send_1),
            line_of(s[4]->Send_1),
            line_of(s[6]->Ask_0),
            line_of(s[7]->Ask_0),
        ],
{
    let a1 = answers.skip(1);
    let a2 = a1.skip(1);
    let a3 = a2.skip(1);
    assert(s.skip(0) =~= s);
    lemma_dialogue_step(s, 0, answers);
    lemma_dialogue_step(s, 1, answers);
    lemma_dialogue_step(s, 2, a1);
    lemma_dialogue_step(s, 3, a1);
    lemma_dialogue_step(s, 4, a1);
    lemma_dialogue_step(s, 5, a1);
    lemma_dialogue_step(s, 6, a1);
    lemma_dialogue_step(s, 7, a2);
    lemma_dialogue_end(s, a3);
    assert(dialogue(s, answers) =~= seq![
        line_of("*IDN?"@),
        line_of(s[2]->Send_1),
        line_of(s[4]->Send_1),
        line_of(s[6]->Ask_0),
        line_of(s[7]->Ask_0),
    ]);
}

/// An SPE6103 that answers every query is written the voltage, then the
/// current, and is asked for both.
pub proof fn law_apply_dialogue(volt: u64, curr: u64, answers: Seq<Seq<char>>)
    requires
        answers.len() >= 3,
        is_spe6103(answers[0]),
    ensures
        dialogue(apply_script(volt, curr), answers) == seq![
            line_of("*IDN?"@),
            line_of("VOLT "@ + fixed(volt)),
            line_of("CURR "@ + fixed(curr)),
            line_of("VOLT?"@),
            line_of("CURR?"@),
        ],
{
    lemma_setting_dialogue(apply_script(volt, curr), answers);
}

/// An SPE6103 that answers every query is written the limit of the voltage,
/// then that of the current, and is asked for both.
pub proof fn law_protect_dialogue(ovp: u64, ocp: u64, answers: Seq<Seq<char>>)
    requires
        answers.len() >= 3,
        is_spe6103(answers[0]),
    ensures
        dialogue(protect_script(ovp, ocp), answers) == seq![
            line_of("*IDN?"@),
            line_of("VOLT:LIM "@ + fixed(ovp)),
            line_of("CURR:LIM "@ + fixed(ocp)),
            line_of("VOLT:LIM?"@),
            line_of("CURR:LIM?"@),
        ],
{
    lemma_setting_dialogue(protect_script(ovp, ocp), answers);
}

/// An SPE6103 that answers every query is told to switch its output, and is
/// asked for it.
pub proof fn law_outp_dialogue(on: bool, answers: Seq<Seq<char>>)
    requires
        answers.len() >= 2,
        is_spe6103(answers[0]),
    ensures
        dialogue(outp_script(on), answers) == seq![
            line_of("*IDN?"@),
            line_of(if on { "OUTP ON"@ } else { "OUTP OFF"@ }),
            line_of("OUTP?"@),
        ],
{
    let s = outp_script(on);
    let a1 = answers.skip(1);
    assert(s.skip(0) =~= s);
    lemma_dialogue_step(s, 0, answers);
    lemma_dialogue_step(s, 1, answers);
    lemma_dialogue_step(s, 2, a1);
    lemma_dialogue_step(s, 3, a1);
    lemma_dialogue_step(s, 4, a1);
    lemma_dialogue_end(s, a1.skip(1));
    assert(dialogue(s, answers) =~= seq![
        line_of("*IDN?"@),
        line_of(if on { "OUTP ON"@ } else { "OUTP OFF"@ }),
        line_of("OUTP?"@),
    ]);
}

/// A device that answers every query is asked for its settings, its limits, its
/// readings and its output, in this order, and is written nothing else.
pub proof fn law_poll_dialogue(answers: Seq<Seq<char>>)
    requires
        answers.len() >= 9,
    ensures
        dialogue(poll_script(), answers) == seq![
            line_of("VOLT?"@),
            line_of("CURR?"@),
            line_of("VOLT:LIM?"@),
            line_of("CURR:LIM?"@),
            line_of("MEAS:VOLT?"@),
            line_of("MEAS:CURR?"@),
            line_of("MEAS:POW?"@),
            line_of("MEAS:ALL:INFO?"@),
            line_of("OUTP?"@),
        ],
{
    let s = poll_script();
    assert(s.skip(0) =~= s);
    assert(answers.skip(0) =~= answers);
    assert forall|k: int| 0 <= k < 9 implies #[trigger] dialogue(s.skip(k), answers.skip(k)) == seq![
        line_of(s[k]->Ask_0),
    ] + dialogue(s.skip(k + 1), answers.skip(k + 1)) by {
        lemma_dialogue_step(s, k, answers.skip(k));
        assert(answers.skip(k).skip(1) =~= answers.skip(k + 1));
    }
    lemma_dialogue_end(s, answers.skip(9));
    assert(dialogue(s.skip(6), answers.skip(6)) =~= seq![
        line_of("MEAS:POW?"@),
        line_of("MEAS:ALL:INFO?"@),
        line_of("OUTP?"@),
    ]) by {
        assert(dialogue(s.skip(8), answers.skip(8)) =~= seq![line_of("OUTP?"@)]);
        assert(dialogue(s.skip(7), answers.skip(7)) =~= seq![
            line_of("MEAS:ALL:INFO?"@),
            line_of("OUTP?"@),
        ]);
    }
    assert(dialogue(s.skip(3), answers.skip(3)) =~= seq![
        line_of("CURR:LIM?"@),
        line_of("MEAS:VOLT?"@),
        line_of("MEAS:CURR?"@),
    ] + dialogue(s.skip(6), answers.skip(6))) by {
        assert(dialogue(s.skip(5), answers.skip(5)) =~= seq![line_of("MEAS:CURR?"@)] + dialogue(
            s.skip(6),
            answers.skip(6),
        ));
        assert(dialogue(s.skip(4), answers.skip(4)) =~= seq![
            line_of("MEAS:VOLT?"@),
            line_of("MEAS:CURR?"@),
        ] + dialogue(s.skip(6), answers.skip(6)));
    }
    assert(dialogue(s.skip(1), answers.skip(1)) =~= seq![line_of("CURR?"@), line_of("VOLT:LIM?"@)]
        + dialogue(s.skip(3), answers.skip(3))) by {
        assert(dialogue(s.skip(2), answers.skip(2)) =~= seq![line_of("VOLT:LIM?"@)] + dialogue(
            s.skip(3),
            answers.skip(3),
        ));
    }
    assert(dialogue(s.skip(0), answers.skip(0)) =~= seq![line_of("VOLT?"@)] + dialogue(
        s.skip(1),
        answers.skip(1),
    ));
}

/// A device is written the one query that was typed, whatever it answers.
pub proof fn law_query_dialogue(query: Seq<char>, answers: Seq<Seq<char>>)
    ensures
        dialogue(query_script(query), answers) == seq![line_of(query)],
{
    let s = query_script(query);
    reveal_with_fuel(dialogue, 2);
    assert(s.skip(1) =~= Seq::empty());
    assert(dialogue(s, answers) =~= seq![line_of(query)]);
}

// What the replies amount to.

/// In a script of nothing but queries, each reply is that to the query at its
/// place.
proof fn lemma_replies_in_order(t: TransactionView, i: int)
    requires
        forall|k: int| 0 <= k < t.script.len() ==> (#[trigger] t.script[k]) is Ask,
        0 <= i < t.script.len(),
    ensures
        asks(t.script.take(i)) == i,
    decreases i,
{
    if i > 0 {
        lemma_replies_in_order(t, i - 1);
        assert(t.script[i - 1] is Ask);
    }
    lemma_asks_step(t.script, if i > 0 { i - 1 } else { 0 });
}

proof fn lemma_poll_reply(t: TransactionView, i: int)
    requires
        t.script == poll_script(),
        t.replies.len() == 9,
        0 <= i < 9,
    ensures
        poll_script()[i] is Ask,
        is_reply_to(t, poll_script()[i]->Ask_0, t.replies[i]),
{
    lemma_replies_in_order(t, i);
    assert(t.script[i] == StepView::Ask(poll_script()[i]->Ask_0));
}

/// Each member of the status is the reply to the query that asks for it: the
/// settings to those for the settings, the limits to those for the limits, and
/// the readings to those for the readings.
pub proof fn law_status_members_answer_their_queries(t: TransactionView)
    requires
        t.script == poll_script(),
        t.replies.len() == 9,
    ensures
        ({
            let m = status_values(t.replies);
            &&& m.len() == 9
            &&& m[0].0 == "set_volt"@ && is_reply_to(t, "VOLT?"@, m[0].1)
            &&& m[1].0 == "set_curr"@ && is_reply_to(t, "CURR?"@, m[1].1)
            &&& m[2].0 == "lim_volt"@ && is_reply_to(t, "VOLT:LIM?"@, m[2].1)
            &&& m[3].0 == "lim_curr"@ && is_reply_to(t, "CURR:LIM?"@, m[3].1)
            &&& m[4].0 == "meas_volt"@ && is_reply_to(t, "MEAS:VOLT?"@, m[4].1)
            &&& m[5].0 == "meas_curr"@ && is_reply_to(t, "MEAS:CURR?"@, m[5].1)
            &&& m[6].0 == "meas_pow"@ && is_reply_to(t, "MEAS:POW?"@, m[6].1)
            &&& m[7].0 == "info"@ && is_reply_to(t, "MEAS:ALL:INFO?"@, m[7].1)
            &&& m[8].0 == "outp"@ && is_reply_to(t, "OUTP?"@, m[8].1)
        }),
{
    lemma_poll_reply(t, 0);
    lemma_poll_reply(t, 1);
    lemma_poll_reply(t, 2);
    lemma_poll_reply(t, 3);
    lemma_poll_reply(t, 4);
    lemma_poll_reply(t, 5);
    lemma_poll_reply(t, 6);
    lemma_poll_reply(t, 7);
    lemma_poll_reply(t, 8);
}

/// The members of the status of a snapshot, each under the name of its entry.
pub proof fn law_status_members_of_a_snapshot(s: Snapshot)
    ensures
        status_members(s) == seq![
            ("set_volt"@, s.set_volt@),
            ("set_curr"@, s.set_curr@),
            ("lim_volt"@, s.lim_volt@),
            ("lim_curr"@, s.lim_curr@),
            ("meas_volt"@, s.meas_volt@),
            ("meas_curr"@, s.meas_curr@),
            ("meas_pow"@, s.meas_pow@),
            ("info"@, s.info@),
            ("outp"@, s.outp@),
        ],
{
}

/// The two replies of a script of the form of those that set two values are
/// those to its two queries.
proof fn lemma_setting_replies(t: TransactionView)
    requires
        t.script.len() == 8,
        t.script[0] is Pause,
        t.script[1] is Guard,
        t.script[2] is Send,
        t.script[3] is Pause,
        t.script[4] is Send,
        t.script[5] is Pause,
        t.script[6] is Ask,
        t.script[7] is Ask,
        t.replies.len() == 2,
    ensures
        is_reply_to(t, t.script[6]->Ask_0, t.replies[0]),
        is_reply_to(t, t.script[7]->Ask_0, t.replies[1]),
{
    lemma_asks_step(t.script, 0);
    lemma_asks_step(t.script, 1);
    lemma_asks_step(t.script, 2);
    lemma_asks_step(t.script, 3);
    lemma_asks_step(t.script, 4);
    lemma_asks_step(t.script, 5);
    lemma_asks_step(t.script, 6);
    assert(t.script[6] == StepView::Ask(t.script[6]->Ask_0));
    assert(t.script[7] == StepView::Ask(t.script[7]->Ask_0));
}

/// Of the two replies on setting voltage and current, the first is that to the
/// query for the voltage, and the second that to the query for the current.
pub proof fn law_apply_replies_answer_their_queries(t: TransactionView, volt: u64, curr: u64)
    requires
        t.script == apply_script(volt, curr),
        t.replies.len() == 2,
    ensures
        is_reply_to(t, "VOLT?"@, t.replies[0]),
        is_reply_to(t, "CURR?"@, t.replies[1]),
{
    lemma_setting_replies(t);
}

/// Of the two replies on setting the limits, the first is that to the query for
/// the limit of the voltage, and the second that for the limit of the current.
pub proof fn law_protect_replies_answer_their_queries(t: TransactionView, ovp: u64, ocp: u64)
    requires
        t.script == protect_script(ovp, ocp),
        t.replies.len() == 2,
    ensures
        is_reply_to(t, "VOLT:LIM?"@, t.replies[0]),
        is_reply_to(t, "CURR:LIM?"@, t.replies[1]),
{
    lemma_setting_replies(t);
}

/// The reply on switching the output is that to the query for the output.
pub proof fn law_outp_reply_answers_its_query(t: TransactionView, on: bool)
    requires
        t.script == outp_script(on),
        t.replies.len() == 1,
    ensures
        is_reply_to(t, "OUTP?"@, t.replies[0]),
{
    lemma_asks_step(t.script, 0);
    lemma_asks_step(t.script, 1);
    lemma_asks_step(t.script, 2);
    lemma_asks_step(t.script, 3);
    assert(t.script[4] == StepView::Ask("OUTP?"@));
}

/// An SPE6103 that is asked for its name is written nothing else before it is
/// known, and nothing after, where nothing is to be set.
pub proof fn law_identify_dialogue(answers: Seq<Seq<char>>)
    ensures
        dialogue(identify_script(), answers) == seq![line_of("*IDN?"@)],
{
    let s = identify_script();
    reveal_with_fuel(dialogue, 3);
    assert(s.skip(1)[0] == s[1]);
    assert(s.skip(1).skip(1) =~= Seq::empty());
    assert(dialogue(s, answers) =~= seq![line_of("*IDN?"@)]);
}

/// Every line ends with a line feed, which stands behind what is said.
pub proof fn law_lines_end_with_a_line_feed(command: Seq<char>)
    ensures
        line_of(command) == command.push('\n'),
        written(StepView::Guard) == Some("*IDN?"@.push('\n')),
        forall|label: Seq<char>| #[trigger]
            written(StepView::Send(label, command)) == Some(command.push('\n')),
        written(StepView::Ask(command)) == Some(command.push('\n')),
        forall|ms: u64| #[trigger] written(StepView::Pause(ms)) is None,
{
    assert(line_of(command) =~= command.push('\n'));
    assert(line_of("*IDN?"@) =~= "*IDN?"@.push('\n'));
}

/// After the port was opened, and after each command, the supply is given time:
/// 200 milliseconds, and 300 after its output was switched.
pub proof fn law_supply_is_given_time(a: u64, b: u64, on: bool, i: int)
    ensures
        identify_script().len() == 2 && identify_script()[0] == StepView::Pause(200),
        outp_script(on).len() == 5 && outp_script(on)[0] == StepView::Pause(200),
        apply_script(a, b).len() == 8 && apply_script(a, b)[0] == StepView::Pause(200),
        protect_script(a, b).len() == 8 && protect_script(a, b)[0] == StepView::Pause(200),
        0 <= i < 5 && outp_script(on)[i] is Send ==> i == 2 && outp_script(on)[i + 1] == StepView::Pause(300),
        0 <= i < 8 && apply_script(a, b)[i] is Send ==> i < 7 && apply_script(a, b)[i + 1] == StepView::Pause(200),
        0 <= i < 8 && protect_script(a, b)[i] is Send ==> i < 7 && protect_script(a, b)[i + 1] == StepView::Pause(200),
{
}

/// A time that was asked for is kept to, whatever it is, and else the usual one.
pub proof fn law_time_that_was_asked_for(ms: u64, usual: u64)
    ensures
        timeout_or(Some(ms), usual) == ms,
        timeout_or(None, usual) == usual,
        COMMAND_TIMEOUT_MS == 1500,
        POLL_TIMEOUT_MS == 1200,
        BAUD == 115200,
{
}

/// A transaction that has just begun is on the port that was given, with the
/// time and the script that were given, and nothing of it is done or known.
pub proof fn law_begun_transaction(t: Transaction, port: Seq<char>, timeout_ms: u64, script: Seq<StepView>)
    requires
        begun(t, port, timeout_ms, script),
    ensures
        t@.wf(),
        t@.port == port,
        t@.timeout_ms == timeout_ms,
        t@.script == script,
        t@.at == 0,
        t@.idn is None,
        t@.replies.len() == 0,
{
}

/// The messages on ports that do not open and on lines that cannot be written.
pub proof fn law_messages_on_the_line(port: Seq<char>, label: Seq<char>, command: Seq<char>, e: Seq<char>)
    ensures
        open_failure(port, e) == "open "@ + port + ": "@ + e,
        write_failure(StepView::Send(label, command), e) == label + ": "@ + e,
        write_failure(StepView::Ask(command), e) == "write: "@ + e,
        write_failure(StepView::Guard, e) == "write: "@ + e,
{
    reveal_strlit("write");
    reveal_strlit(": ");
    reveal_strlit("write: ");
    assert("write"@ + ": "@ =~= "write: "@);
}

} // verus!
