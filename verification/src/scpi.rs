//! The dialogue with the supply: command lines, reply lines, and transactions
//! that write nothing before the device has said that it is an SPE6103.

use vstd::prelude::*;
use vstd::utf8::{decode_utf8, valid_utf8};

use crate::text::{contains, has, law_pattern_stands_between_two_texts, names, trim, trimmed};
use crate::unicode::{lossy_of, utf8_lossy};

verus! {

// Reply lines.

/// What one attempt to read a byte of a reply came to.
#[derive(Debug)]
pub enum Turn {
    /// The time for the reply was over before the attempt.
    Overdue,
    /// A byte came.
    Byte(u8),
    /// No byte came yet.
    Nothing,
    /// The port failed, with this message.
    Failed(String),
}

/// The byte that ends a reply.
pub const NEWLINE: u8 = 10;

/// The reply that is being read.
pub struct LineReader {
    buf: Vec<u8>,
}

impl View for LineReader {
    type V = Seq<u8>;

    /// The bytes that have come.
    closed spec fn view(&self) -> Seq<u8> {
        self.buf@
    }
}

/// The message on a failure: what was done, and what the system says.
pub open spec fn failure(what: Seq<char>, error: Seq<char>) -> Seq<char> {
    what + ": "@ + error
}

/// The message on a failure.
pub fn failure_text(what: &str, error: &str) -> (s: String)
    ensures
        s@ == failure(what@, error@),
{
    let mut s: String = what.to_string();
    s.append(": ");
    s.append(error);
    s
}

impl LineReader {
    /// The bytes so far are those of an unfinished line.
    pub open spec fn wf(&self) -> bool {
        forall|i: int| 0 <= i < self@.len() ==> #[trigger] self@[i] != NEWLINE
    }

    /// A reader that has read nothing.
    pub fn new() -> (r: LineReader)
        ensures
            r.wf(),
            r@.len() == 0,
    {
        LineReader { buf: Vec::new() }
    }

    /// Takes one turn of reading a reply: the line, when it is complete, as
    /// text without the white space at its ends, or the error that ends the
    /// reading, or nothing while more is to come.
    pub fn read_line(&mut self, turn: Turn) -> (r: Option<Result<String, String>>)
        requires
            old(self).wf(),
        ensures
            match turn {
                Turn::Overdue => {
                    &&& r matches Some(Err(e)) && e@ == "timeout waiting for reply"@
                    &&& final(self)@ == old(self)@
                },
                Turn::Failed(m) => {
                    &&& r matches Some(Err(e)) && e@ == failure("read"@, m@)
                    &&& final(self)@ == old(self)@
                },
                Turn::Nothing => r is None && final(self)@ == old(self)@,
                Turn::Byte(b) => {
                    &&& final(self)@ == old(self)@.push(b)
                    &&& b != NEWLINE ==> r is None
                    &&& b == NEWLINE ==> (r matches Some(Ok(line)) && line@ == trimmed(
                        lossy_of(old(self)@.push(NEWLINE)),
                    ))
                },
            },
            r matches Some(Ok(line)) ==> valid_utf8(final(self)@) ==> line@ == trimmed(
                decode_utf8(final(self)@),
            ),
            r is None ==> final(self).wf(),
    {
        match turn {
            Turn::Overdue => Some(Err("timeout waiting for reply".to_string())),
            Turn::Failed(m) => Some(Err(failure_text("read", &m))),
            Turn::Nothing => None,
            Turn::Byte(b) => {
                self.buf.push(b);
                if b == NEWLINE {
                    let s = utf8_lossy(&self.buf);
                    Some(Ok(trim(&s)))
                } else {
                    None
                }
            },
        }
    }
}

// Transactions.

/// The name that the device must give.
pub open spec fn is_spe6103(idn: Seq<char>) -> bool {
    has(idn, "SPE6103"@)
}

/// The message on a device that gives another name.
pub open spec fn other_device(idn: Seq<char>) -> Seq<char> {
    "SPE6103ではありません: "@ + idn
}

/// Lets the reply to `*IDN?` pass where it is that of an SPE6103.
pub fn ensure_spe6103(idn: String) -> (r: Result<String, String>)
    ensures
        match r {
            Ok(s) => is_spe6103(idn@) && s@ == idn@,
            Err(e) => !is_spe6103(idn@) && e@ == other_device(idn@),
        },
{
    if contains(&idn, "SPE6103") {
        Ok(idn)
    } else {
        let mut s: String = "SPE6103ではありません: ".to_string();
        s.append(&idn);
        Err(s)
    }
}

/// One step of a transaction.
#[derive(Debug, PartialEq, Eq)]
pub enum Step {
    /// Wait for so many milliseconds.
    Pause(u64),
    /// Ask for the name of the device, and go on only with an SPE6103.
    Guard,
    /// Write a command that has no reply. The label names it in an error.
    Send { label: String, command: String },
    /// Write a query and keep the reply.
    Ask(String),
}

/// A step, as a mathematical value.
pub enum StepView {
    Pause(u64),
    Guard,
    Send(Seq<char>, Seq<char>),
    Ask(Seq<char>),
}

impl View for Step {
    type V = StepView;

    open spec fn view(&self) -> StepView {
        match self {
            Step::Pause(ms) => StepView::Pause(*ms),
            Step::Guard => StepView::Guard,
            Step::Send { label, command } => StepView::Send(label@, command@),
            Step::Ask(query) => StepView::Ask(query@),
        }
    }
}

/// The steps as mathematical values.
pub open spec fn script_of(steps: Seq<Step>) -> Seq<StepView> {
    Seq::new(steps.len(), |i: int| steps[i]@)
}

/// No command is written before the device has been asked for its name.
pub open spec fn guarded(script: Seq<StepView>) -> bool {
    forall|i: int|
        0 <= i < script.len() && (#[trigger] script[i] is Send) ==> exists|j: int|
            0 <= j < i && script[j] is Guard
}

/// The number of queries whose replies are kept.
pub open spec fn asks(script: Seq<StepView>) -> nat
    decreases script.len(),
{
    if script.len() == 0 {
        0
    } else {
        asks(script.drop_last()) + (if script.last() is Ask {
            1nat
        } else {
            0nat
        })
    }
}

/// A transaction in progress.
pub struct Transaction {
    port: String,
    timeout_ms: u64,
    steps: Vec<Step>,
    at: usize,
    idn: Option<String>,
    replies: Vec<String>,
}

/// A transaction as a mathematical value.
pub struct TransactionView {
    /// The serial port.
    pub port: Seq<char>,
    /// How long to wait for each reply, in milliseconds.
    pub timeout_ms: u64,
    /// What is to be done.
    pub script: Seq<StepView>,
    /// How many steps have been done.
    pub at: int,
    /// The name that the device gave, once it has passed.
    pub idn: Option<Seq<char>>,
    /// The replies so far.
    pub replies: Seq<Seq<char>>,
}

impl View for Transaction {
    type V = TransactionView;

    closed spec fn view(&self) -> TransactionView {
        TransactionView {
            port: self.port@,
            timeout_ms: self.timeout_ms,
            script: script_of(self.steps@),
            at: self.at as int,
            idn: match self.idn {
                Some(s) => Some(s@),
                None => None,
            },
            replies: names(self.replies@),
        }
    }
}

impl TransactionView {
    /// The device has given its name, and it is that of an SPE6103.
    pub open spec fn identified(self) -> bool {
        self.idn matches Some(s) && is_spe6103(s)
    }

    /// The transaction is one that can come about: past the guard the device
    /// is known, and there is a reply to each query that was made.
    pub open spec fn wf(self) -> bool {
        &&& 0 <= self.at <= self.script.len()
        &&& guarded(self.script)
        &&& (exists|j: int| 0 <= j < self.at && (#[trigger] self.script[j]) is Guard)
            ==> self.identified()
        &&& self.replies.len() == asks(self.script.take(self.at))
    }

    /// All has been done.
    pub open spec fn finished(self) -> bool {
        self.at == self.script.len()
    }

    /// The step that is next.
    pub open spec fn current(self) -> StepView {
        self.script[self.at]
    }

    /// The transaction after the pause or the command that is next.
    pub open spec fn stepped(self) -> TransactionView {
        TransactionView { at: self.at + 1, ..self }
    }

    /// The transaction after the name query that is next, with this answer.
    pub open spec fn named(self, idn: Seq<char>) -> TransactionView {
        TransactionView { at: self.at + 1, idn: Some(idn), ..self }
    }

    /// The transaction after the query that is next, with this answer.
    pub open spec fn told(self, reply: Seq<char>) -> TransactionView {
        TransactionView { at: self.at + 1, replies: self.replies.push(reply), ..self }
    }
}

proof fn lemma_step_taken(before: TransactionView, after: TransactionView)
    requires
        before.wf(),
        !before.finished(),
        after.script == before.script,
        after.at == before.at + 1,
        before.current() is Guard ==> after.identified(),
        !(before.current() is Guard) ==> after.idn == before.idn,
        after.replies.len() == before.replies.len() + (if before.current() is Ask {
            1int
        } else {
            0int
        }),
    ensures
        after.wf(),
{
    let s = before.script;
    assert(s.take(before.at + 1).drop_last() =~= s.take(before.at));
    assert(s.take(before.at + 1).last() == s[before.at]);
    if exists|j: int| 0 <= j < after.at && (#[trigger] after.script[j]) is Guard {
        let j = choose|j: int| 0 <= j < after.at && (#[trigger] after.script[j]) is Guard;
        if j < before.at {
            assert(before.script[j] is Guard);
        }
    }
}

impl Transaction {
    /// The transaction is one that can come about.
    pub open spec fn wf(&self) -> bool {
        self@.wf()
    }

    /// Begins a transaction.
    pub(crate) fn begin(port: &str, timeout_ms: u64, steps: Vec<Step>) -> (t: Transaction)
        requires
            guarded(script_of(steps@)),
        ensures
            t.wf(),
            t@ == (TransactionView {
                port: port@,
                timeout_ms,
                script: script_of(steps@),
                at: 0,
                idn: None,
                replies: Seq::empty(),
            }),
    {
        let t = Transaction {
            port: port.to_string(),
            timeout_ms,
            steps,
            at: 0,
            idn: None,
            replies: Vec::new(),
        };
        proof {
            assert(asks(t@.script.take(0)) == 0);
            assert(t@.replies =~= Seq::empty());
        }
        t
    }

    /// The serial port.
    pub fn port(&self) -> (r: &str)
        ensures
            r@ == self@.port,
    {
        &self.port
    }

    /// How long to wait for each reply, in milliseconds.
    pub fn timeout_ms(&self) -> (r: u64)
        ensures
            r == self@.timeout_ms,
    {
        self.timeout_ms
    }

    /// The reply to one of the queries so far.
    pub fn reply(&self, i: usize) -> (r: String)
        requires
            i < self@.replies.len(),
        ensures
            r@ == self@.replies[i as int],
    {
        self.replies[i].clone()
    }

    /// The step to perform now, or none when all has been done. A command is
    /// handed out only when the device is known to be an SPE6103.
    pub fn next(&self) -> (r: Option<&Step>)
        requires
            self.wf(),
        ensures
            match r {
                Some(step) => !self@.finished() && step@ == self@.current(),
                None => self@.finished(),
            },
            r matches Some(step) ==> step@ is Send ==> self@.identified(),
    {
        if self.at < self.steps.len() {
            proof {
                assert(self@.script[self.at as int] == self.steps@[self.at as int]@);
            }
            Some(&self.steps[self.at])
        } else {
            None
        }
    }

    /// The pause is over, or the command has been written.
    pub fn done(&mut self)
        requires
            old(self).wf(),
            !old(self)@.finished(),
            old(self)@.current() is Pause || old(self)@.current() is Send,
        ensures
            final(self).wf(),
            final(self)@ == old(self)@.stepped(),
    {
        let ghost before = self@;
        let n: usize = self.steps.len();
        proof {
            assert(self.at < n);
        }
        self.at = self.at + 1;
        proof {
            lemma_step_taken(before, self@);
        }
    }

    /// The reply to the name query or to another query has come. An error ends
    /// the transaction.
    pub fn replied(&mut self, reply: String) -> (r: Result<(), String>)
        requires
            old(self).wf(),
            !old(self)@.finished(),
            old(self)@.current() is Guard || old(self)@.current() is Ask,
        ensures
            final(self).wf(),
            old(self)@.current() is Ask ==> r is Ok && final(self)@ == old(self)@.told(reply@),
            old(self)@.current() is Guard ==> match r {
                Ok(_) => is_spe6103(reply@) && final(self)@ == old(self)@.named(reply@),
                Err(e) => {
                    &&& !is_spe6103(reply@)
                    &&& e@ == other_device(reply@)
                    &&& final(self)@ == old(self)@
                },
            },
    {
        let ghost before = self@;
        let n: usize = self.steps.len();
        proof {
            assert(self.at < n);
            assert(self@.current() == self.steps@[self.at as int]@);
        }
        let guard: bool = matches!(self.steps[self.at], Step::Guard);
        if guard {
            match ensure_spe6103(reply) {
                Ok(idn) => {
                    self.idn = Some(idn);
                },
                Err(e) => {
                    return Err(e);
                },
            }
        } else {
            let ghost replies = self.replies@;
            self.replies.push(reply);
            proof {
                assert(names(self.replies@) =~= names(replies).push(reply@));
            }
        }
        self.at = self.at + 1;
        proof {
            lemma_step_taken(before, self@);
        }
        Ok(())
    }
}

// What holds of every transaction.

/// A device is an SPE6103 exactly if `SPE6103` stands somewhere in the name that
/// it gives, and one that is not is told of with its name.
pub proof fn law_name_of_the_supply(idn: Seq<char>)
    ensures
        is_spe6103(idn) <==> exists|a: Seq<char>, b: Seq<char>| idn == #[trigger] (a + "SPE6103"@ + b),
        other_device(idn) == "SPE6103ではありません: "@ + idn,
{
    law_pattern_stands_between_two_texts(idn, "SPE6103"@);
}

/// The message on a failure is what was done, a colon, a space, and what the
/// system says.
pub proof fn law_message_on_a_failure(what: Seq<char>, error: Seq<char>)
    ensures
        failure(what, error) == what + seq![':', ' '] + error,
{
    reveal_strlit(": ");
    assert(": "@ =~= seq![':', ' ']);
}

/// Each step takes the transaction on by one, and leaves its port, its time and
/// its script as they are. A pause or a command adds nothing to what is known,
/// the name query adds the name, and any other query adds its reply behind the
/// replies before it.
pub proof fn law_steps_are_taken_one_by_one(t: TransactionView, text: Seq<char>)
    ensures
        t.stepped().at == t.at + 1 && t.named(text).at == t.at + 1 && t.told(text).at == t.at + 1,
        t.stepped().port == t.port && t.named(text).port == t.port && t.told(text).port == t.port,
        t.stepped().timeout_ms == t.timeout_ms && t.named(text).timeout_ms == t.timeout_ms && t.told(
            text,
        ).timeout_ms == t.timeout_ms,
        t.stepped().script == t.script && t.named(text).script == t.script && t.told(text).script == t.script,
        t.stepped().idn == t.idn && t.told(text).idn == t.idn,
        t.named(text).idn == Some(text),
        t.stepped().replies == t.replies && t.named(text).replies == t.replies,
        t.told(text).replies == t.replies + seq![text],
        t.finished() <==> t.at == t.script.len(),
        0 <= t.at < t.script.len() ==> t.current() == t.script[t.at],
{
    assert(t.replies.push(text) =~= t.replies + seq![text]);
}

/// The reply to a query of the transaction: there are as many replies before it
/// as there are queries before this one.
pub open spec fn is_reply_to(t: TransactionView, query: Seq<char>, reply: Seq<char>) -> bool {
    exists|i: int|
        0 <= i < t.script.len() && (#[trigger] t.script[i]) == StepView::Ask(query) && asks(t.script.take(i))
            < t.replies.len() && reply == t.replies[asks(t.script.take(i)) as int]
}

/// The reply that is told of a query stands, from then on, as the reply to it.
pub proof fn law_told_reply_is_the_reply_to_its_query(t: TransactionView, reply: Seq<char>)
    requires
        t.wf(),
        !t.finished(),
        t.current() is Ask,
    ensures
        is_reply_to(t.told(reply), t.current()->Ask_0, reply),
{
    let u = t.told(reply);
    assert(u.script[t.at] == StepView::Ask(t.current()->Ask_0));
}

/// How many queries there are up to a step.
pub proof fn lemma_asks_step(script: Seq<StepView>, i: int)
    requires
        0 <= i < script.len(),
    ensures
        asks(script.take(0)) == 0,
        asks(script.take(i + 1)) == asks(script.take(i)) + (if script[i] is Ask {
            1nat
        } else {
            0nat
        }),
{
    assert(script.take(i + 1).drop_last() =~= script.take(i));
    assert(script.take(i + 1).last() == script[i]);
}

/// A reply goes on until a line feed comes, which is the byte 10.
pub proof fn law_reply_ends_with_a_line_feed(r: LineReader)
    ensures
        r.wf() <==> !r@.contains(10u8),
{
    if !r.wf() {
        let i = choose|i: int| 0 <= i < r@.len() && r@[i] == NEWLINE;
        assert(r@[i] == 10u8);
    }
}

/// The steps of a script are those that it was made of, one for one.
pub proof fn law_steps_of_a_script(steps: Seq<Step>, i: int)
    ensures
        script_of(steps).len() == steps.len(),
        0 <= i < steps.len() ==> script_of(steps)[i] == steps[i]@,
{
}

} // verus!
