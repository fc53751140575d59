//! Finding the supply among the serial ports.

use vstd::prelude::*;
use vstd::utf8::is_ascii_chars;

use crate::psu::{begun, dialogue, line_of, timeout, timeout_or, POLL_TIMEOUT_MS};
use crate::scpi::{asks, is_spe6103, script_of, Step, StepView, Transaction};
use crate::text::{contains, has, law_pattern_stands_between_two_texts, names};
use crate::unicode::{ascii_lowercase, lowercase, lowercase_of};

verus! {

/// How long to wait after opening a port before asking, in milliseconds.
pub const SETTLE_MS: u64 = 300;

/// A port name, in lower case, that tells of a USB adapter: the names that
/// CH340 adapters have on the various systems all hold `usb`.
pub open spec fn usb_name(lower: Seq<char>) -> bool {
    has(lower, "usb"@)
}

/// The port is that of a USB adapter.
pub open spec fn is_usb(name: Seq<char>) -> bool {
    usb_name(lowercase_of(name))
}

/// Of the ports with ASCII names, those of USB adapters are the ones whose
/// names hold `usb` in small or capital letters.
pub open spec fn told_by_ascii(ports: Seq<Seq<char>>) -> bool {
    forall|i: int|
        0 <= i < ports.len() && is_ascii_chars(#[trigger] ports[i]) ==> is_usb(ports[i]) == usb_name(
            ascii_lowercase(ports[i]),
        )
}

/// The ports of USB adapters, and then the others, each in the order in which
/// they stood.
pub open spec fn usb_first(ports: Seq<Seq<char>>) -> Seq<Seq<char>> {
    ports.filter(|p: Seq<char>| is_usb(p)) + ports.filter(|p: Seq<char>| !is_usb(p))
}

/// Whether a port name in lower case tells of a USB adapter.
pub fn is_usb_name(lower: &str) -> (r: bool)
    ensures
        r == usb_name(lower@),
{
    contains(lower, "usb")
}

/// Brings the ports of USB adapters to the front. Otherwise the order stays.
pub fn sort_ch340_first(ports: &mut Vec<String>)
    ensures
        names(final(ports)@) == usb_first(names(old(ports)@)),
        told_by_ascii(names(old(ports)@)),
{
    let ghost all = names(ports@);
    let ghost yes = |p: Seq<char>| is_usb(p);
    let ghost no = |p: Seq<char>| !is_usb(p);
    let mut front: Vec<String> = Vec::new();
    let mut back: Vec<String> = Vec::new();
    let mut i: usize = 0;
    proof {
        reveal(Seq::filter);
        assert(names(front@) =~= all.take(0).filter(yes));
        assert(names(back@) =~= all.take(0).filter(no));
    }
    while i < ports.len()
        invariant
            i <= ports@.len(),
            all == names(ports@),
            yes == (|p: Seq<char>| is_usb(p)),
            no == (|p: Seq<char>| !is_usb(p)),
            names(front@) == all.take(i as int).filter(yes),
            names(back@) == all.take(i as int).filter(no),
            told_by_ascii(all.take(i as int)),
        decreases ports@.len() - i,
    {
        let name = ports[i].clone();
        let lower = lowercase(&name);
        let ghost f = front@;
        let ghost b = back@;
        proof {
            reveal(Seq::filter);
            assert(all.take(i + 1).drop_last() =~= all.take(i as int));
            assert(all.take(i + 1).last() == name@);
            assert(told_by_ascii(all.take(i + 1))) by {
                let t = all.take(i + 1);
                assert forall|k: int| 0 <= k < t.len() && is_ascii_chars(#[trigger] t[k]) implies is_usb(
                    t[k],
                ) == usb_name(ascii_lowercase(t[k])) by {
                    if k < i {
                        assert(t[k] == all.take(i as int)[k]);
                    }
                }
            }
        }
        if is_usb_name(&lower) {
            front.push(name);
            proof {
                assert(names(front@) =~= names(f).push(name@));
            }
        } else {
            back.push(name);
            proof {
                assert(names(back@) =~= names(b).push(name@));
            }
        }
        i = i + 1;
    }
    let ghost f = front@;
    let ghost b = back@;
    front.append(&mut back);
    *ports = front;
    proof {
        assert(all.take(all.len() as int) =~= all);
        assert(names(f + b) =~= names(f) + names(b));
    }
}

/// The serial ports, those of USB adapters first.
pub fn list_serial_ports(available: Vec<String>) -> (r: Vec<String>)
    ensures
        names(r@) == usb_first(names(available@)),
        told_by_ascii(names(available@)),
{
    let mut ports = available;
    sort_ch340_first(&mut ports);
    ports
}

/// The port on which the supply was found, and the name that it gave.
#[derive(Debug, PartialEq, Eq)]
pub struct ScanHit {
    pub port: String,
    pub idn: String,
}

/// A search through the serial ports.
pub struct Scan {
    ports: Vec<String>,
    at: usize,
    timeout_ms: u64,
    heard: Ghost<Seq<Option<Seq<char>>>>,
}

/// A search as a mathematical value.
pub struct ScanView {
    /// The ports, in the order in which they are tried.
    pub ports: Seq<Seq<char>>,
    /// How long to wait for each answer, in milliseconds.
    pub timeout_ms: u64,
    /// How many were tried in vain.
    pub at: int,
    /// What was heard on those, one after the other.
    pub heard: Seq<Option<Seq<char>>>,
}

/// A port answered with the name of an SPE6103.
pub open spec fn hit(answer: Option<Seq<char>>) -> bool {
    answer matches Some(idn) && is_spe6103(idn)
}

/// The text of an answer, if there was one.
pub open spec fn answer_text(answer: Option<String>) -> Option<Seq<char>> {
    match answer {
        Some(s) => Some(s@),
        None => None,
    }
}

/// The steps that try a port: let it settle, and ask for the name.
pub open spec fn probe_script() -> Seq<StepView> {
    seq![StepView::Pause(SETTLE_MS), StepView::Ask("*IDN?"@)]
}

impl View for Scan {
    type V = ScanView;

    closed spec fn view(&self) -> ScanView {
        ScanView {
            ports: names(self.ports@),
            timeout_ms: self.timeout_ms,
            at: self.at as int,
            heard: self.heard@,
        }
    }
}

impl ScanView {
    /// None of the ports tried so far has an SPE6103.
    pub open spec fn wf(self) -> bool {
        &&& 0 <= self.at <= self.ports.len()
        &&& self.heard.len() == self.at
        &&& forall|i: int| 0 <= i < self.at ==> !hit(#[trigger] self.heard[i])
    }

    /// All ports were tried.
    pub open spec fn finished(self) -> bool {
        self.at == self.ports.len()
    }

    /// The port that is next.
    pub open spec fn current(self) -> Seq<char> {
        self.ports[self.at]
    }
}

impl Scan {
    /// None of the ports tried so far has an SPE6103.
    pub open spec fn wf(&self) -> bool {
        self@.wf()
    }

    /// The transaction that tries the next port, or none where all were tried.
    pub fn next(&self) -> (r: Option<Transaction>)
        requires
            self.wf(),
        ensures
            match r {
                Some(t) => !self@.finished() && begun(
                    t,
                    self@.current(),
                    self@.timeout_ms,
                    probe_script(),
                ),
                None => self@.finished(),
            },
    {
        if self.at < self.ports.len() {
            let steps = vec![Step::Pause(SETTLE_MS), Step::Ask("*IDN?".to_string())];
            proof {
                assert(script_of(steps@) =~= probe_script());
            }
            Some(Transaction::begin(&self.ports[self.at], self.timeout_ms, steps))
        } else {
            None
        }
    }

    /// Takes the answer of the port that was tried, or none where it did not
    /// open or did not answer. The search ends with the first SPE6103.
    pub fn tried(&mut self, answer: Option<String>) -> (r: Option<ScanHit>)
        requires
            old(self).wf(),
            !old(self)@.finished(),
        ensures
            final(self).wf(),
            r is Some <==> hit(answer_text(answer)),
            match r {
                Some(h) => {
                    &&& h.port@ == old(self)@.current()
                    &&& Some(h.idn@) == answer_text(answer)
                    &&& final(self)@ == old(self)@
                },
                None => final(self)@ == (ScanView {
                    at: old(self)@.at + 1,
                    heard: old(self)@.heard.push(answer_text(answer)),
                    ..old(self)@
                }),
            },
    {
        let n: usize = self.ports.len();
        let ghost heard = answer_text(answer);
        proof {
            assert(self.at < n);
        }
        match answer {
            Some(idn) => {
                if contains(&idn, "SPE6103") {
                    return Some(ScanHit { port: self.ports[self.at].clone(), idn });
                }
            },
            None => {},
        }
        self.at = self.at + 1;
        self.heard = Ghost(self.heard@.push(heard));
        None
    }
}

/// Begins a search through the ports, those of USB adapters first.
pub fn psu_scan(available: Vec<String>, timeout_ms: Option<u64>) -> (s: Scan)
    ensures
        s.wf(),
        s@ == (ScanView {
            ports: usb_first(names(available@)),
            timeout_ms: timeout_or(timeout_ms, POLL_TIMEOUT_MS),
            at: 0,
            heard: Seq::empty(),
        }),
        told_by_ascii(names(available@)),
{
    Scan {
        ports: list_serial_ports(available),
        at: 0,
        timeout_ms: timeout(timeout_ms, POLL_TIMEOUT_MS),
        heard: Ghost(Seq::empty()),
    }
}

/// The message where no port has the supply.
pub fn not_found() -> (s: String)
    ensures
        s@ == "SPE6103が見つかりません。本体電源ON＋USB接続を確認してください。"@,
{
    "SPE6103が見つかりません。本体電源ON＋USB接続を確認してください。".to_string()
}

/// A search writes nothing to a port but the query for the name, whatever is
/// there, and keeps one answer.
pub proof fn law_search_only_asks_for_the_name(answers: Seq<Seq<char>>)
    ensures
        dialogue(probe_script(), answers) == seq![line_of("*IDN?"@)],
        asks(probe_script()) == 1,
{
    let s = probe_script();
    reveal_with_fuel(asks, 3);
    reveal_with_fuel(dialogue, 3);
    assert(s.skip(1)[0] == s[1]);
    assert(s.skip(1).skip(1) =~= Seq::empty());
    assert(dialogue(s, answers) =~= seq![line_of("*IDN?"@)]);
}

/// Sorting the ports loses none and adds none.
pub proof fn law_sorting_keeps_the_ports(ports: Seq<Seq<char>>)
    ensures
        usb_first(ports).to_multiset() == ports.to_multiset(),
    decreases ports.len(),
{
    let yes = |p: Seq<char>| is_usb(p);
    let no = |p: Seq<char>| !is_usb(p);
    broadcast use vstd::seq_lib::group_to_multiset_ensures;
    reveal(Seq::filter);
    if ports.len() == 0 {
        assert(usb_first(ports) =~= ports);
    } else {
        let q = ports.drop_last();
        let x = ports.last();
        law_sorting_keeps_the_ports(q);
        assert(ports =~= q.push(x));
        let f = q.filter(yes);
        let b = q.filter(no);
        if is_usb(x) {
            assert(usb_first(ports) =~= f.push(x) + b);
            vstd::seq_lib::lemma_multiset_commutative(f.push(x), b);
            vstd::seq_lib::lemma_multiset_commutative(f, b);
        } else {
            assert(usb_first(ports) =~= (f + b).push(x));
        }
        assert(usb_first(ports).to_multiset() =~= ports.to_multiset());
    }
}

/// Sorting the ports a second time changes nothing.
pub proof fn law_sorting_is_idempotent(ports: Seq<Seq<char>>)
    ensures
        usb_first(usb_first(ports)) == usb_first(ports),
{
    let yes = |p: Seq<char>| is_usb(p);
    let no = |p: Seq<char>| !is_usb(p);
    let f = ports.filter(yes);
    let b = ports.filter(no);
    broadcast use vstd::seq_lib::group_filter_ensures;
    Seq::filter_distributes_over_add(f, b, yes);
    Seq::filter_distributes_over_add(f, b, no);
    lemma_filter_all(f, yes);
    lemma_filter_none(f, no);
    lemma_filter_all(b, no);
    lemma_filter_none(b, yes);
    assert(usb_first(f + b) =~= f + b);
}

proof fn lemma_filter_all(s: Seq<Seq<char>>, keep: spec_fn(Seq<char>) -> bool)
    requires
        forall|i: int| 0 <= i < s.len() ==> keep(#[trigger] s[i]),
    ensures
        s.filter(keep) == s,
    decreases s.len(),
{
    reveal(Seq::filter);
    if s.len() > 0 {
        lemma_filter_all(s.drop_last(), keep);
        assert(keep(s[s.len() - 1]));
        assert(s =~= s.drop_last().push(s.last()));
    }
}

proof fn lemma_filter_none(s: Seq<Seq<char>>, keep: spec_fn(Seq<char>) -> bool)
    requires
        forall|i: int| 0 <= i < s.len() ==> !keep(#[trigger] s[i]),
    ensures
        s.filter(keep) == Seq::<Seq<char>>::empty(),
    decreases s.len(),
{
    reveal(Seq::filter);
    if s.len() > 0 {
        lemma_filter_none(s.drop_last(), keep);
        assert(!keep(s[s.len() - 1]));
    }
}

/// A port is that of a USB adapter exactly if its name, in lower case, has `usb`
/// in it.
pub proof fn law_names_of_usb_adapters(name: Seq<char>)
    ensures
        is_usb(name) <==> exists|a: Seq<char>, b: Seq<char>| lowercase_of(name) == #[trigger] (a + "usb"@ + b),
{
    law_pattern_stands_between_two_texts(lowercase_of(name), "usb"@);
}

/// After sorting no port of a USB adapter stands behind another port, and both
/// kinds of ports stand in the order in which they stood.
pub proof fn law_sorted_ports(ports: Seq<Seq<char>>, i: int, j: int)
    requires
        0 <= i < j < usb_first(ports).len(),
    ensures
        is_usb(usb_first(ports)[j]) ==> is_usb(usb_first(ports)[i]),
        usb_first(ports).filter(|p: Seq<char>| is_usb(p)) == ports.filter(|p: Seq<char>| is_usb(p)),
        usb_first(ports).filter(|p: Seq<char>| !is_usb(p)) == ports.filter(|p: Seq<char>| !is_usb(p)),
{
    let yes = |p: Seq<char>| is_usb(p);
    let no = |p: Seq<char>| !is_usb(p);
    let f = ports.filter(yes);
    let b = ports.filter(no);
    broadcast use vstd::seq_lib::group_filter_ensures;
    Seq::filter_distributes_over_add(f, b, yes);
    Seq::filter_distributes_over_add(f, b, no);
    lemma_filter_all(f, yes);
    lemma_filter_none(f, no);
    lemma_filter_all(b, no);
    lemma_filter_none(b, yes);
    assert(f + Seq::<Seq<char>>::empty() =~= f);
    assert(Seq::<Seq<char>>::empty() + b =~= b);
    let s = usb_first(ports);
    if i >= f.len() {
        assert(s[j] == b[j - f.len()]);
        assert(no(b[j - f.len()]));
    } else {
        assert(s[i] == f[i]);
        assert(yes(f[i]));
    }
}

/// A port has the supply exactly if it answered with a name in which `SPE6103`
/// stands. The ports are tried in their order, one after the other, and the
/// search is over when all were tried.
pub proof fn law_ports_are_tried_in_order(s: ScanView, answer: Option<Seq<char>>)
    ensures
        hit(answer) <==> answer is Some && has(answer->0, "SPE6103"@),
        s.finished() <==> s.at == s.ports.len(),
        0 <= s.at < s.ports.len() ==> s.current() == s.ports[s.at],
        s.wf() ==> s.heard.len() == s.at && forall|i: int|
            0 <= i < s.at ==> !((#[trigger] s.heard[i]) is Some && has(s.heard[i]->0, "SPE6103"@)),
        probe_script() == seq![StepView::Pause(300), StepView::Ask("*IDN?"@)],
{
    if s.wf() {
        assert forall|i: int| 0 <= i < s.at implies !((#[trigger] s.heard[i]) is Some && has(
            s.heard[i]->0,
            "SPE6103"@,
        )) by {
            assert(!hit(s.heard[i]));
        }
    }
}

/// What a port answered is taken as it is.
pub proof fn law_text_of_an_answer(s: String)
    ensures
        answer_text(Some(s)) == Some(s@),
        answer_text(None) is None,
{
}

} // verus!
