//! JSON objects whose members are strings, as the status replies use them.

use vstd::prelude::*;

use crate::text::chars_of;

verus! {

/// How one character is written inside a JSON string.
pub open spec fn escape_char(c: char) -> Seq<char> {
    if c == '\\' {
        seq!['\\', '\\']
    } else if c == '"' {
        seq!['\\', '"']
    } else if c == '\r' {
        seq!['\\', 'r']
    } else if c == '\n' {
        seq!['\\', 'n']
    } else {
        seq![c]
    }
}

/// How a text is written inside a JSON string.
pub open spec fn escape(s: Seq<char>) -> Seq<char>
    decreases s.len(),
{
    if s.len() == 0 {
        Seq::empty()
    } else {
        escape_char(s[0]) + escape(s.skip(1))
    }
}

/// Writes a text as the inside of a JSON string: backslashes, double quotes,
/// carriage returns and line feeds are escaped.
pub fn escape_json(s: &str) -> (r: String)
    ensures
        r@ == escape(s@),
{
    let v = chars_of(s);
    let mut r: String = String::new();
    let mut i: usize = 0;
    proof {
        assert(s@.skip(0) =~= s@);
        assert(r@ + escape(s@) =~= escape(s@));
    }
    while i < v.len()
        invariant
            v@ == s@,
            i <= v@.len(),
            r@ + escape(s@.skip(i as int)) == escape(s@),
        decreases v@.len() - i,
    {
        let c = v[i];
        let ghost before = r@;
        if c == '\\' {
            r.push('\\');
            r.push('\\');
        } else if c == '"' {
            r.push('\\');
            r.push('"');
        } else if c == '\r' {
            r.push('\\');
            r.push('r');
        } else if c == '\n' {
            r.push('\\');
            r.push('n');
        } else {
            r.push(c);
        }
        proof {
            let rest = s@.skip(i as int);
            assert(rest.skip(1) =~= s@.skip(i + 1));
            assert(r@ =~= before + escape_char(c));
            assert(r@ + escape(s@.skip(i + 1)) =~= before + (escape_char(c) + escape(
                s@.skip(i + 1),
            )));
        }
        i = i + 1;
    }
    proof {
        assert(r@ + escape(s@.skip(s@.len() as int)) =~= r@);
    }
    r
}

/// One member of an object.
pub struct Member<'a> {
    pub key: &'a str,
    pub value: &'a str,
}

/// The keys and values of members.
pub open spec fn pairs(m: Seq<Member>) -> Seq<(Seq<char>, Seq<char>)> {
    Seq::new(m.len(), |i: int| (m[i].key@, m[i].value@))
}

/// The text of one member.
pub open spec fn member(p: (Seq<char>, Seq<char>)) -> Seq<char> {
    seq!['"'] + p.0 + seq!['"', ':', '"'] + escape(p.1) + seq!['"']
}

/// The texts of the members, with a comma between each two.
pub open spec fn members(p: Seq<(Seq<char>, Seq<char>)>) -> Seq<char>
    decreases p.len(),
{
    if p.len() == 0 {
        Seq::empty()
    } else if p.len() == 1 {
        member(p[0])
    } else {
        members(p.drop_last()) + seq![','] + member(p.last())
    }
}

/// The text of an object with these members.
pub open spec fn object(p: Seq<(Seq<char>, Seq<char>)>) -> Seq<char> {
    seq!['{'] + members(p) + seq!['}']
}

/// Writes an object with the given members, in the given order.
pub fn object_text(m: &[Member]) -> (r: String)
    ensures
        r@ == object(pairs(m@)),
{
    let mut r: String = "{".to_string();
    proof {
        reveal_strlit("{");
        assert(r@ =~= seq!['{'] + members(pairs(m@).take(0)));
    }
    let mut i: usize = 0;
    while i < m.len()
        invariant
            i <= m@.len(),
            r@ == seq!['{'] + members(pairs(m@).take(i as int)),
        decreases m@.len() - i,
    {
        let ghost before = r@;
        if i > 0 {
            r.push(',');
        }
        r.push('"');
        r.append(m[i].key);
        r.append("\":\"");
        r.append(&escape_json(m[i].value));
        r.push('"');
        proof {
            reveal_strlit("\":\"");
            let done = pairs(m@).take(i as int);
            let next = pairs(m@).take(i + 1);
            assert("\":\""@ =~= seq!['"', ':', '"']);
            assert(next.drop_last() =~= done);
            assert(next.last() == pairs(m@)[i as int]);
            let t = member(pairs(m@)[i as int]);
            if i == 0 {
                assert(before =~= seq!['{']);
                assert(r@ =~= seq!['{'] + t);
            } else {
                assert(r@ =~= before + seq![','] + t);
                assert(r@ =~= seq!['{'] + (members(done) + seq![','] + t));
            }
        }
        i = i + 1;
    }
    proof {
        assert(pairs(m@).take(m@.len() as int) =~= pairs(m@));
    }
    r.push('}');
    proof {
        assert(r@ =~= object(pairs(m@)));
    }
    r
}

/// The text of an object with one member.
pub fn object_of_one(key: &str, value: &str) -> (r: String)
    ensures
        r@ == object(seq![(key@, value@)]),
{
    let m = [Member { key, value }];
    let r = object_text(&m);
    proof {
        assert(pairs(m@) =~= seq![(key@, value@)]);
    }
    r
}

// Reading back.

/// The character that an escape stands for, of the escapes written here.
pub open spec fn unescape_char(c: char) -> Option<char> {
    if c == '\\' || c == '"' {
        Some(c)
    } else if c == 'r' {
        Some('\r')
    } else if c == 'n' {
        Some('\n')
    } else {
        None
    }
}

/// The control characters, which may not stand in a JSON string as they are.
pub open spec fn control(c: char) -> bool {
    (c as u32) < 0x20
}

/// The text holds no control character but those that are escaped.
pub open spec fn printable(s: Seq<char>) -> bool {
    forall|i: int| 0 <= i < s.len() ==> control(#[trigger] s[i]) ==> s[i] == '\r' || s[i] == '\n'
}

/// Reads a JSON string after its opening quote: the text, and what follows the
/// closing quote.
pub open spec fn read_string(t: Seq<char>) -> Option<(Seq<char>, Seq<char>)>
    decreases t.len(),
{
    if t.len() == 0 || control(t[0]) {
        None
    } else if t[0] == '"' {
        Some((Seq::empty(), t.skip(1)))
    } else if t[0] != '\\' {
        match read_string(t.skip(1)) {
            Some(r) => Some((seq![t[0]] + r.0, r.1)),
            None => None,
        }
    } else if t.len() < 2 {
        None
    } else {
        match (unescape_char(t[1]), read_string(t.skip(2))) {
            (Some(c), Some(r)) => Some((seq![c] + r.0, r.1)),
            _ => None,
        }
    }
}

/// Reads a string with its opening quote.
pub open spec fn read_quoted(t: Seq<char>) -> Option<(Seq<char>, Seq<char>)> {
    if t.len() > 0 && t[0] == '"' {
        read_string(t.skip(1))
    } else {
        None
    }
}

/// Reads a member of an object: its key and value, and what follows it.
pub open spec fn read_member(t: Seq<char>) -> Option<((Seq<char>, Seq<char>), Seq<char>)> {
    match read_quoted(t) {
        Some(k) => if k.1.len() > 0 && k.1[0] == ':' {
            match read_quoted(k.1.skip(1)) {
                Some(v) => Some(((k.0, v.0), v.1)),
                None => None,
            }
        } else {
            None
        },
        None => None,
    }
}

/// Reads `n` members with commas between them.
pub open spec fn read_members(t: Seq<char>, n: nat) -> Option<(Seq<(Seq<char>, Seq<char>)>, Seq<char>)>
    decreases n,
{
    match read_member(t) {
        Some(m) => if n <= 1 {
            Some((seq![m.0], m.1))
        } else if m.1.len() > 0 && m.1[0] == ',' {
            match read_members(m.1.skip(1), (n - 1) as nat) {
                Some(r) => Some((seq![m.0] + r.0, r.1)),
                None => None,
            }
        } else {
            None
        },
        None => None,
    }
}

/// Reads an object of `n` members, and nothing after it.
pub open spec fn read_object(t: Seq<char>, n: nat) -> Option<Seq<(Seq<char>, Seq<char>)>> {
    if t.len() > 0 && t[0] == '{' {
        match read_members(t.skip(1), n) {
            Some(r) => if r.1 == seq!['}'] {
                Some(r.0)
            } else {
                None
            },
            None => None,
        }
    } else {
        None
    }
}

/// A text that holds nothing that is escaped.
pub open spec fn plain(s: Seq<char>) -> bool {
    forall|i: int| 0 <= i < s.len() ==> !control(#[trigger] s[i]) && s[i] != '"' && s[i] != '\\'
}

/// What is escaped reads back: a JSON string reader that starts on the escaped
/// text gives the text, and stops at the closing quote, whatever follows.
pub proof fn law_escaped_text_reads_back(s: Seq<char>, rest: Seq<char>)
    requires
        printable(s),
    ensures
        read_string(escape(s) + seq!['"'] + rest) == Some((s, rest)),
    decreases s.len(),
{
    let t = escape(s) + seq!['"'] + rest;
    if s.len() == 0 {
        assert(t.skip(1) =~= rest);
        assert(s =~= Seq::<char>::empty());
    } else {
        let tail = s.skip(1);
        let e = escape_char(s[0]);
        assert forall|i: int| 0 <= i < tail.len() && control(#[trigger] tail[i]) implies tail[i]
            == '\r' || tail[i] == '\n' by {
            assert(tail[i] == s[i + 1]);
        }
        law_escaped_text_reads_back(tail, rest);
        let u = escape(tail) + seq!['"'] + rest;
        assert(t =~= e + u);
        assert(s =~= seq![s[0]] + tail);
        assert(control(s[0]) ==> s[0] == '\r' || s[0] == '\n');
        if e.len() == 2 {
            assert(t.skip(2) =~= u);
        } else {
            assert(t.skip(1) =~= u);
        }
    }
}

proof fn lemma_plain_escape(s: Seq<char>)
    requires
        plain(s),
    ensures
        escape(s) == s,
    decreases s.len(),
{
    if s.len() == 0 {
        assert(s =~= Seq::<char>::empty());
    } else {
        assert(plain(s.skip(1))) by {
            assert forall|i: int| 0 <= i < s.skip(1).len() implies !control(#[trigger] s.skip(1)[i])
                && s.skip(1)[i] != '"' && s.skip(1)[i] != '\\' by {
                assert(s.skip(1)[i] == s[i + 1]);
            }
        }
        lemma_plain_escape(s.skip(1));
        assert(!control(s[0]));
        assert(s =~= seq![s[0]] + s.skip(1));
    }
}

proof fn lemma_member_reads_back(p: (Seq<char>, Seq<char>), rest: Seq<char>)
    requires
        plain(p.0),
        printable(p.1),
    ensures
        read_member(member(p) + rest) == Some((p, rest)),
{
    let t = member(p) + rest;
    let after_key = seq![':', '"'] + escape(p.1) + seq!['"'] + rest;
    lemma_plain_escape(p.0);
    assert(t.skip(1) =~= escape(p.0) + seq!['"'] + after_key);
    law_escaped_text_reads_back(p.0, after_key);
    assert(after_key.skip(1).skip(1) =~= escape(p.1) + seq!['"'] + rest);
    law_escaped_text_reads_back(p.1, rest);
}

/// The first member stands first.
proof fn lemma_members_front(p: Seq<(Seq<char>, Seq<char>)>)
    requires
        p.len() >= 2,
    ensures
        members(p) == member(p[0]) + seq![','] + members(p.skip(1)),
    decreases p.len(),
{
    let q = p.drop_last();
    if p.len() == 2 {
        assert(members(q) == member(p[0]));
        assert(members(p.skip(1)) == member(p[1]));
    } else {
        lemma_members_front(q);
        assert(q.skip(1) =~= p.skip(1).drop_last());
        assert(p.skip(1).last() == p.last());
        assert(members(p) =~= member(p[0]) + seq![','] + (members(p.skip(1).drop_last()) + seq![
            ',',
        ] + member(p.last())));
    }
}

/// An object reads back as its members, in their order, whatever the values
/// hold but for control characters other than carriage return and line feed.
pub proof fn law_object_reads_back(p: Seq<(Seq<char>, Seq<char>)>)
    requires
        p.len() > 0,
        forall|i: int| 0 <= i < p.len() ==> plain(#[trigger] p[i].0) && printable(p[i].1),
    ensures
        read_object(object(p), p.len()) == Some(p),
{
    lemma_members_read_back(p, seq!['}']);
    assert(object(p).skip(1) =~= members(p) + seq!['}']);
}

proof fn lemma_members_read_back(p: Seq<(Seq<char>, Seq<char>)>, rest: Seq<char>)
    requires
        p.len() > 0,
        forall|i: int| 0 <= i < p.len() ==> plain(#[trigger] p[i].0) && printable(p[i].1),
    ensures
        read_members(members(p) + rest, p.len()) == Some((p, rest)),
    decreases p.len(),
{
    assert(plain(p[0].0) && printable(p[0].1));
    if p.len() == 1 {
        lemma_member_reads_back(p[0], rest);
        assert(p =~= seq![p[0]]);
    } else {
        lemma_members_front(p);
        let more = members(p.skip(1)) + rest;
        let after = seq![','] + more;
        assert(members(p) + rest =~= member(p[0]) + after);
        lemma_member_reads_back(p[0], after);
        assert(after.skip(1) =~= more);
        assert forall|i: int| 0 <= i < p.skip(1).len() implies plain(#[trigger] p.skip(1)[i].0)
            && printable(p.skip(1)[i].1) by {
            assert(p.skip(1)[i] == p[i + 1]);
        }
        lemma_members_read_back(p.skip(1), rest);
        assert(p =~= seq![p[0]] + p.skip(1));
    }
}

/// Texts are escaped character by character: what is escaped of two texts one
/// behind the other is what is escaped of each. Four characters are written as
/// two, and all others as they are.
pub proof fn law_escaping_goes_character_by_character(a: Seq<char>, c: char, b: Seq<char>)
    ensures
        escape(a + b) == escape(a) + escape(b),
        escape(seq!['\\']) == "\\\\"@,
        escape(seq!['"']) == "\\\""@,
        escape(seq!['\r']) == "\\r"@,
        escape(seq!['\n']) == "\\n"@,
        c != '\\' && c != '"' && c != '\r' && c != '\n' ==> escape(seq![c]) == seq![c],
{
    lemma_escape_sum(a, b);
    lemma_escape_one('\\');
    lemma_escape_one('"');
    lemma_escape_one('\r');
    lemma_escape_one('\n');
    lemma_escape_one(c);
    reveal_strlit("\\\\");
    reveal_strlit("\\\"");
    reveal_strlit("\\r");
    reveal_strlit("\\n");
    assert("\\\\"@ =~= seq!['\\', '\\']);
    assert("\\\""@ =~= seq!['\\', '"']);
    assert("\\r"@ =~= seq!['\\', 'r']);
    assert("\\n"@ =~= seq!['\\', 'n']);
}

proof fn lemma_escape_one(c: char)
    ensures
        escape(seq![c]) == escape_char(c),
{
    assert(seq![c].skip(1) =~= Seq::empty());
    assert(escape(seq![c].skip(1)) =~= Seq::empty());
    assert(escape(seq![c]) =~= escape_char(c));
}

proof fn lemma_escape_sum(a: Seq<char>, b: Seq<char>)
    ensures
        escape(a + b) == escape(a) + escape(b),
    decreases a.len(),
{
    if a.len() == 0 {
        assert(a + b =~= b);
        assert(escape(a) + escape(b) =~= escape(b));
    } else {
        lemma_escape_sum(a.skip(1), b);
        assert((a + b).skip(1) =~= a.skip(1) + b);
        assert(escape(a + b) =~= escape(a) + escape(b));
    }
}

/// Members stand in their order, each with its key and its value.
pub proof fn law_pairs_of_members(m: Seq<Member>, i: int)
    ensures
        pairs(m).len() == m.len(),
        0 <= i < m.len() ==> pairs(m)[i] == (m[i].key@, m[i].value@),
{
}

/// An object is made of braces, and in them the members with commas between them,
/// each with its key in quotes, a colon, and its escaped value in quotes.
pub proof fn law_object_goes_member_by_member(p: Seq<(Seq<char>, Seq<char>)>, key: Seq<char>, value: Seq<char>)
    ensures
        object(seq![(key, value)]) == seq!['{', '"'] + key + seq!['"', ':', '"'] + escape(value) + seq!['"', '}'],
        p.len() > 0 ==> object(p.push((key, value))) == object(p).drop_last() + seq![',', '"'] + key + seq![
            '"',
            ':',
            '"',
        ] + escape(value) + seq!['"', '}'],
        object(Seq::empty()) == seq!['{', '}'],
{
    let m = (key, value);
    assert(object(seq![m]) =~= seq!['{', '"'] + key + seq!['"', ':', '"'] + escape(value) + seq!['"', '}']);
    assert(object(Seq::empty()) =~= seq!['{', '}']);
    if p.len() > 0 {
        assert(p.push(m).drop_last() =~= p);
        assert(object(p).drop_last() =~= seq!['{'] + members(p));
        assert(object(p.push(m)) =~= object(p).drop_last() + seq![',', '"'] + key + seq!['"', ':', '"'] + escape(value)
            + seq!['"', '}']);
    }
}

} // verus!
