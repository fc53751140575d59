//! The measurement log: CSV files of limited size, one after the other.

use vstd::prelude::*;
use vstd::utf8::encode_utf8;

use crate::numeral::{decimal, is_digit, lemma_decimal_digits, push_decimal};
use crate::text::{chars_of, contains, copy, ends_with, has, occurs_at, string_of};

verus! {

/// The size that a log file is kept to, in bytes.
pub const LOG_SIZE_LIMIT: u64 = 10485760;

/// The first line of each log file.
pub const LOG_HEADER: &'static str = "timestamp_iso,v_set,v_meas,a_set,a_meas,w,mode,outp,info\n";

/// The state of the log.
pub struct LogState {
    file: String,
    lines: u64,
    bytes: u64,
    rot: u32,
    fresh: bool,
    written: Ghost<Seq<Seq<char>>>,
}

/// The state of the log as a mathematical value.
pub struct LogView {
    /// The name of the file that is written.
    pub file: Seq<char>,
    /// How many lines the file has, without its header.
    pub lines: nat,
    /// How many bytes the file has.
    pub bytes: nat,
    /// How many times a new file was to be begun.
    pub rot: nat,
    /// The file was begun for the line that is being appended, or was last.
    pub fresh: bool,
    /// The lines of the file.
    pub written: Seq<Seq<char>>,
}

impl View for LogState {
    type V = LogView;

    closed spec fn view(&self) -> LogView {
        LogView {
            file: self.file@,
            lines: self.lines as nat,
            bytes: self.bytes as nat,
            rot: self.rot as nat,
            fresh: self.fresh,
            written: self.written@,
        }
    }
}

/// What is told of the log after a line was appended.
#[derive(Debug, PartialEq, Eq)]
pub struct LogStatus {
    pub file: String,
    pub lines: u64,
    pub bytes: u64,
    pub rotated: bool,
}

/// The bytes of a line with its line feed.
pub open spec fn line_size(line: Seq<char>) -> nat {
    encode_utf8(line).len() + 1
}

/// The bytes of a file with a header and these lines.
pub open spec fn file_size(lines: Seq<Seq<char>>) -> nat
    decreases lines.len(),
{
    if lines.len() == 0 {
        encode_utf8(LOG_HEADER@).len()
    } else {
        file_size(lines.drop_last()) + line_size(lines.last())
    }
}

/// The name holds a separator of paths, or two dots in a row.
pub open spec fn strays(name: Seq<char>) -> bool {
    has(name, ".."@) || has(name, "/"@) || has(name, "\\"@)
}

/// A file that has its header and nothing else.
pub open spec fn new_file(file: Seq<char>, rot: nat, fresh: bool) -> LogView {
    LogView { file, lines: 0, bytes: file_size(Seq::empty()), rot, fresh, written: Seq::empty() }
}

/// The index of the last dot.
pub open spec fn last_dot(s: Seq<char>) -> Option<int>
    decreases s.len(),
{
    if s.len() == 0 {
        None
    } else if s.last() == '.' {
        Some(s.len() - 1)
    } else {
        last_dot(s.drop_last())
    }
}

/// A file name without its extension: what stands before the last dot, unless
/// that is nothing.
pub open spec fn stem(name: Seq<char>) -> Seq<char> {
    match last_dot(name) {
        Some(i) => if i > 0 {
            name.take(i)
        } else {
            name
        },
        None => name,
    }
}

/// The name of the file that follows another.
pub open spec fn successor(file: Seq<char>, rot: nat) -> Seq<char> {
    stem(file) + "_r"@ + decimal(rot) + ".csv"@
}

fn stem_text(name: &str) -> (r: String)
    ensures
        r@ == stem(name@),
{
    let v = chars_of(name);
    let mut n: usize = v.len();
    proof {
        assert(v@.take(n as int) =~= v@);
    }
    while n > 0
        invariant
            v@ == name@,
            n <= v@.len(),
            last_dot(v@.take(n as int)) == last_dot(v@),
        decreases n,
    {
        proof {
            assert(v@.take(n as int).drop_last() =~= v@.take(n - 1));
        }
        if v[n - 1] == '.' {
            if n - 1 > 0 {
                let c = copy(&v, 0, n - 1);
                proof {
                    assert(c@ =~= name@.take(n - 1));
                }
                return string_of(&c);
            }
            return string_of(&v);
        }
        n = n - 1;
    }
    string_of(&v)
}

proof fn lemma_header_size()
    ensures
        encode_utf8(LOG_HEADER@).len() == 57,
{
    reveal_strlit("timestamp_iso,v_set,v_meas,a_set,a_meas,w,mode,outp,info\n");
    assert(LOG_HEADER@.len() == 57);
    assert(vstd::utf8::is_ascii_chars(LOG_HEADER@));
    vstd::utf8::is_ascii_chars_encode_utf8(LOG_HEADER@);
}

/// The log before any was started.
pub fn log_slot() -> (slot: Option<LogState>)
    ensures
        slot is None,
{
    None
}

/// Why a log is not started under a name, if it is not.
pub open spec fn name_error(name: Seq<char>) -> Option<Seq<char>> {
    if strays(name) {
        Some("ファイル名が不正です"@)
    } else if !".csv"@.is_suffix_of(name) {
        Some("拡張子は.csvのみ"@)
    } else {
        None
    }
}

/// Starts a log in the file of the given name, which has its header and
/// nothing else.
pub fn log_start(name: &str) -> (r: Result<LogState, String>)
    ensures
        match name_error(name@) {
            Some(m) => r matches Err(e) && e@ == m,
            None => r matches Ok(st) && st.wf() && st@ == new_file(name@, 0, false),
        },
{
    if contains(name, "..") || contains(name, "/") || contains(name, "\\") {
        return Err("ファイル名が不正です".to_string());
    }
    if !ends_with(name, ".csv") {
        return Err("拡張子は.csvのみ".to_string());
    }
    proof {
        lemma_header_size();
    }
    Ok(
        LogState {
            file: name.to_string(),
            lines: 0,
            bytes: LOG_HEADER.as_bytes().len() as u64,
            rot: 0,
            fresh: false,
            written: Ghost(Seq::empty()),
        },
    )
}

/// The message where no log was started.
pub fn log_not_started() -> (s: String)
    ensures
        s@ == "ログは開始されていません"@,
{
    "ログは開始されていません".to_string()
}

/// Stops the log: tells its path and how many lines it has.
pub fn log_stop(slot: &mut Option<LogState>, path: &str) -> (r: Result<String, String>)
    ensures
        *final(slot) is None,
        match *old(slot) {
            Some(st) => r matches Ok(s) && s@ == path@ + " ("@ + decimal(st@.lines) + "行)"@,
            None => r matches Err(e) && e@ == "ログは開始されていません"@,
        },
{
    match slot.take() {
        Some(st) => {
            let mut s: String = path.to_string();
            s.append(" (");
            push_decimal(&mut s, st.lines);
            s.append("行)");
            Ok(s)
        },
        None => Err(log_not_started()),
    }
}

impl LogView {
    /// The counts are those of the file, and the file is no larger than the
    /// limit unless its only line is.
    pub open spec fn wf(self) -> bool {
        &&& self.lines == self.written.len()
        &&& self.bytes == file_size(self.written)
        &&& self.bytes <= LOG_SIZE_LIMIT || self.lines <= 1
    }

    /// The file has no room for one more line.
    pub open spec fn full_for(self, line: Seq<char>) -> bool {
        self.bytes + line_size(line) > LOG_SIZE_LIMIT
    }

    /// The log when a line is to be appended: where its file has no room for
    /// the line, another is to be begun.
    pub open spec fn before_line(self, line: Seq<char>) -> LogView {
        LogView {
            rot: if self.full_for(line) {
                self.rot + 1
            } else {
                self.rot
            },
            fresh: false,
            ..self
        }
    }

    /// The log with one more line in its file.
    pub open spec fn with_line(self, line: Seq<char>) -> LogView {
        LogView {
            lines: self.lines + 1,
            bytes: self.bytes + line_size(line),
            written: self.written.push(line),
            ..self
        }
    }
}

impl LogState {
    /// The counts are those of the file, and the file is no larger than the
    /// limit unless its only line is.
    pub open spec fn wf(&self) -> bool {
        self@.wf()
    }

    /// The name of the file that is written.
    pub fn file(&self) -> (r: &str)
        ensures
            r@ == self@.file,
    {
        &self.file
    }

    /// How many times a new file was to be begun.
    pub fn rot(&self) -> (r: u32)
        ensures
            r == self@.rot,
    {
        self.rot
    }

    /// Where the file has no room for the line, the name of the file to begin.
    /// The count of files goes up even if that file then cannot be made.
    fn rotate(&mut self, line: &str) -> (r: Option<String>)
        requires
            old(self).wf(),
            old(self)@.full_for(line@) ==> old(self)@.rot < u32::MAX,
        ensures
            final(self).wf(),
            final(self)@ == old(self)@.before_line(line@),
            match r {
                Some(name) => old(self)@.full_for(line@) && name@ == successor(
                    old(self)@.file,
                    final(self)@.rot,
                ),
                None => !old(self)@.full_for(line@),
            },
    {
        let n: u64 = line.as_bytes().len() as u64;
        self.fresh = false;
        if self.bytes > LOG_SIZE_LIMIT || n >= LOG_SIZE_LIMIT - self.bytes {
            self.rot = self.rot + 1;
            let mut name: String = stem_text(&self.file);
            name.append("_r");
            push_decimal(&mut name, self.rot as u64);
            name.append(".csv");
            Some(name)
        } else {
            None
        }
    }

    /// The next file was begun, with its header.
    pub fn rotated(&mut self, file: String)
        requires
            old(self).wf(),
            file@ == successor(old(self)@.file, old(self)@.rot),
        ensures
            final(self).wf(),
            final(self)@ == new_file(successor(old(self)@.file, old(self)@.rot), old(self)@.rot, true),
    {
        proof {
            lemma_header_size();
        }
        self.file = file;
        self.lines = 0;
        self.bytes = LOG_HEADER.as_bytes().len() as u64;
        self.fresh = true;
        self.written = Ghost(Seq::empty());
    }

    /// The line was appended to the file, with its line feed. What is told says
    /// whether the file was begun for it.
    pub fn appended(&mut self, line: &str) -> (r: LogStatus)
        requires
            old(self).wf(),
            !old(self)@.full_for(line@) || old(self)@.lines == 0,
            line_size(line@) <= i64::MAX,
        ensures
            final(self).wf(),
            final(self)@ == old(self)@.with_line(line@),
            r.file@ == final(self)@.file,
            r.lines == final(self)@.lines,
            r.bytes == final(self)@.bytes,
            r.rotated == final(self)@.fresh,
    {
        proof {
            lemma_header_size();
            lemma_size_covers_lines(self.written@);
            assert(self.written@.push(line@).drop_last() =~= self.written@);
        }
        let n: u64 = line.as_bytes().len() as u64;
        self.lines = self.lines + 1;
        self.bytes = self.bytes + n + 1;
        self.written = Ghost(self.written@.push(line@));
        LogStatus { file: self.file.clone(), lines: self.lines, bytes: self.bytes, rotated: self.fresh }
    }
}

/// Begins to append a line to the log: where its file has no room for the line,
/// gives the name of the file to begin first. An error where no log was
/// started.
pub fn log_append(slot: &mut Option<LogState>, line: &str) -> (r: Result<Option<String>, String>)
    requires
        *old(slot) matches Some(st) ==> st.wf() && (st@.full_for(line@) ==> st@.rot < u32::MAX),
    ensures
        match *old(slot) {
            None => *final(slot) is None && (r matches Err(e) && e@ == "ログは開始されていません"@),
            Some(st) => *final(slot) matches Some(now) && {
                &&& now.wf()
                &&& now@ == st@.before_line(line@)
                &&& st@.full_for(line@) ==> (r matches Ok(Some(name)) && name@ == successor(
                    st@.file,
                    now@.rot,
                ))
                &&& !st@.full_for(line@) ==> (r matches Ok(n) && n is None)
            },
        },
{
    match slot {
        Some(st) => Ok(st.rotate(line)),
        None => Err(log_not_started()),
    }
}

/// A file has at least a byte for each of its lines.
proof fn lemma_size_covers_lines(lines: Seq<Seq<char>>)
    ensures
        file_size(lines) >= lines.len(),
    decreases lines.len(),
{
    if lines.len() > 0 {
        lemma_size_covers_lines(lines.drop_last());
    }
}

/// What is written for a line: the line and a line feed.
pub fn log_line(line: &str) -> (s: String)
    ensures
        s@ == line@ + seq!['\n'],
{
    let mut s: String = line.to_string();
    s.push('\n');
    proof {
        assert(s@ =~= line@ + seq!['\n']);
    }
    s
}

/// A name that does not stray holds no separator and no two dots in a row.
proof fn lemma_strays(s: Seq<char>)
    ensures
        strays(s) == exists|i: int|
            0 <= i < s.len() && (#[trigger] s[i] == '/' || s[i] == '\\' || (s[i] == '.' && i + 1
                < s.len() && s[i + 1] == '.')),
{
    reveal_strlit("..");
    reveal_strlit("/");
    reveal_strlit("\\");
    if strays(s) {
        if has(s, ".."@) {
            let i = choose|i: int| occurs_at(s, ".."@, i);
            let t = s.subrange(i, i + 2);
            assert(t[0] == '.' && t[1] == '.');
            assert(s[i] == '.' && s[i + 1] == '.');
        } else if has(s, "/"@) {
            let i = choose|i: int| occurs_at(s, "/"@, i);
            assert(s.subrange(i, i + 1)[0] == '/');
            assert(s[i] == '/');
        } else {
            let i = choose|i: int| occurs_at(s, "\\"@, i);
            assert(s.subrange(i, i + 1)[0] == '\\');
            assert(s[i] == '\\');
        }
    }
    if exists|i: int|
        0 <= i < s.len() && (#[trigger] s[i] == '/' || s[i] == '\\' || (s[i] == '.' && i + 1 < s.len()
            && s[i + 1] == '.')) {
        let i = choose|i: int|
            0 <= i < s.len() && (#[trigger] s[i] == '/' || s[i] == '\\' || (s[i] == '.' && i + 1
                < s.len() && s[i + 1] == '.'));
        if s[i] == '/' {
            assert(s.subrange(i, i + 1) =~= "/"@);
            assert(occurs_at(s, "/"@, i));
        } else if s[i] == '\\' {
            assert(s.subrange(i, i + 1) =~= "\\"@);
            assert(occurs_at(s, "\\"@, i));
        } else {
            assert(s.subrange(i, i + 2) =~= ".."@);
            assert(occurs_at(s, ".."@, i));
        }
    }
}

proof fn lemma_stem_is_prefix(s: Seq<char>)
    ensures
        stem(s).is_prefix_of(s),
{
    lemma_last_dot(s);
}

proof fn lemma_last_dot(s: Seq<char>)
    ensures
        last_dot(s) matches Some(i) ==> 0 <= i < s.len(),
    decreases s.len(),
{
    if s.len() > 0 && s.last() != '.' {
        lemma_last_dot(s.drop_last());
    }
}

/// The files that follow one whose name is admitted have names that are admitted
/// too: without separators or two dots in a row, and ending in `.csv`.
pub proof fn law_following_files_have_admitted_names(file: Seq<char>, rot: nat)
    requires
        name_error(file) is None,
    ensures
        name_error(successor(file, rot)) is None,
{
    let s = successor(file, rot);
    let t = stem(file);
    let d = decimal(rot);
    let n = t.len();
    lemma_stem_is_prefix(file);
    lemma_decimal_digits(rot);
    lemma_strays(file);
    lemma_strays(s);
    reveal_strlit("_r");
    reveal_strlit(".csv");
    assert forall|i: int| 0 <= i < s.len() implies !(#[trigger] s[i] == '/' || s[i] == '\\' || (s[i]
        == '.' && i + 1 < s.len() && s[i + 1] == '.')) by {
        if i < n {
            assert(s[i] == file[i]);
            if i + 1 < n {
                assert(s[i + 1] == file[i + 1]);
            } else {
                assert(s[i + 1] == "_r"@[0]);
            }
        } else if i < n + 2 {
            assert(s[i] == "_r"@[i - n]);
        } else if i < n + 2 + d.len() {
            assert(s[i] == d[i - n - 2]);
            assert(is_digit(d[i - n - 2]));
        } else {
            assert(s[i] == ".csv"@[i - n - 2 - d.len()]);
            if i + 1 < s.len() {
                assert(s[i + 1] == ".csv"@[i + 1 - n - 2 - d.len()]);
            }
        }
    }
    assert(s.subrange(s.len() - 4, s.len() as int) =~= ".csv"@);
    assert(".csv"@.is_suffix_of(s));
}

proof fn lemma_following_name_is_longer(file: Seq<char>, rot: nat)
    requires
        name_error(file) is None,
    ensures
        successor(file, rot).len() > file.len(),
{
    reveal_strlit("_r");
    reveal_strlit(".csv");
    lemma_decimal_digits(rot);
    let n = file.len() as int;
    assert(".csv"@.is_suffix_of(file));
    assert(file.subrange(n - 4, n) =~= ".csv"@);
    assert(file[n - 1] == ".csv"@[3] && file[n - 2] == ".csv"@[2] && file[n - 3] == ".csv"@[1] && file[n - 4]
        == ".csv"@[0]);
    let a = file.drop_last();
    let b = a.drop_last();
    let c = b.drop_last();
    assert(last_dot(c) == Some(n - 4));
    assert(last_dot(b) == last_dot(c));
    assert(last_dot(a) == last_dot(b));
    assert(last_dot(file) == last_dot(a));
}

proof fn lemma_names_grow(names: Seq<Seq<char>>, rots: Seq<nat>, i: int, j: int)
    requires
        rots.len() == names.len(),
        0 <= i < j < names.len(),
        name_error(names[0]) is None,
        forall|k: int| 0 <= k && k + 1 < names.len() ==> #[trigger] names[k + 1] == successor(names[k], rots[k]),
    ensures
        name_error(names[i]) is None,
        names[i].len() < names[j].len(),
    decreases j,
{
    if i > 0 {
        lemma_names_grow(names, rots, i - 1, i);
        law_following_files_have_admitted_names(names[i - 1], rots[i - 1]);
        assert(names[(i - 1) + 1] == successor(names[i - 1], rots[i - 1]));
    }
    assert(names[(j - 1) + 1] == successor(names[j - 1], rots[j - 1]));
    if i < j - 1 {
        lemma_names_grow(names, rots, i, j - 1);
        lemma_names_grow(names, rots, j - 2, j - 1);
        law_following_files_have_admitted_names(names[j - 2], rots[j - 2]);
        assert(names[(j - 2) + 1] == successor(names[j - 2], rots[j - 2]));
    }
    lemma_following_name_is_longer(names[j - 1], rots[j - 1]);
}

/// No file of a log takes the place of an earlier one: of the files that follow
/// each other, whatever counts they were named by, no two have the same name.
pub proof fn law_log_files_have_different_names(names: Seq<Seq<char>>, rots: Seq<nat>, i: int, j: int)
    requires
        rots.len() == names.len(),
        0 <= i < j < names.len(),
        name_error(names[0]) is None,
        forall|k: int| 0 <= k && k + 1 < names.len() ==> #[trigger] names[k + 1] == successor(names[k], rots[k]),
    ensures
        names[i] != names[j],
{
    lemma_names_grow(names, rots, i, j);
}

/// The log after a line was appended, where nothing failed: in the file that it
/// had, if that has room for the line, or else in the file that follows.
pub open spec fn log_with(log: LogView, line: Seq<char>) -> LogView {
    let now = log.before_line(line);
    if log.full_for(line) {
        new_file(successor(log.file, now.rot), now.rot, true).with_line(line)
    } else {
        now.with_line(line)
    }
}

/// Appending a line keeps to the limit on the size of a file: the file that the
/// line is in is no larger, unless the line alone makes it so. The line is the
/// last in its file, no other line of the log is touched, and a new file is
/// told of exactly where the old one had no room.
pub proof fn law_appended_line_is_in_a_file_of_limited_size(log: LogView, line: Seq<char>)
    requires
        log.wf(),
    ensures
        log_with(log, line).wf(),
        log_with(log, line).bytes <= LOG_SIZE_LIMIT || log_with(log, line).written == seq![line],
        log_with(log, line).written == (if log.full_for(line) {
            seq![line]
        } else {
            log.written.push(line)
        }),
        log_with(log, line).fresh == log.full_for(line),
{
    let now = log_with(log, line);
    assert(now.written.drop_last() =~= (if log.full_for(line) {
        Seq::empty()
    } else {
        log.written
    }));
    assert(now.written =~= (if log.full_for(line) {
        seq![line]
    } else {
        log.written.push(line)
    }));
}

// What is told and done, in so many bytes.

/// A new file is begun for a line exactly if the bytes of the present file and
/// of the line with its line feed are together more than 10485760. As long as
/// they are not, the line goes into the present file, however many lines that
/// has, behind those that are there.
pub proof fn law_new_file_is_begun_only_for_want_of_room(log: LogView, line: Seq<char>)
    ensures
        log.full_for(line) <==> log.bytes + encode_utf8(line).len() + 1 > 10485760,
        log.bytes + encode_utf8(line).len() + 1 <= 10485760 ==> {
            let now = log_with(log, line);
            &&& now.file == log.file
            &&& now.written == log.written + seq![line]
            &&& now.lines == log.lines + 1
            &&& now.bytes == log.bytes + encode_utf8(line).len() + 1
            &&& now.rot == log.rot
            &&& !now.fresh
        },
        log.bytes + encode_utf8(line).len() + 1 > 10485760 ==> {
            let now = log_with(log, line);
            &&& now.file == successor(log.file, log.rot + 1)
            &&& now.written == seq![line]
            &&& now.lines == 1
            &&& now.bytes == 57 + encode_utf8(line).len() + 1
            &&& now.rot == log.rot + 1
            &&& now.fresh
        },
{
    lemma_header_size();
    assert(log.written.push(line) =~= log.written + seq![line]);
    assert(Seq::empty().push(line) =~= seq![line]);
}

/// What a line that is to be appended changes before it is: the count of files,
/// where one more is to be begun, and nothing of the file that is there.
pub proof fn law_file_stays_until_the_next_is_begun(log: LogView, line: Seq<char>)
    ensures
        ({
            let now = log.before_line(line);
            &&& now.file == log.file && now.lines == log.lines && now.bytes == log.bytes
            &&& now.written == log.written
            &&& now.rot == log.rot + (if log.bytes + encode_utf8(line).len() + 1 > 10485760 {
                1int
            } else {
                0int
            })
            &&& !now.fresh
        }),
        ({
            let now = log.with_line(line);
            &&& now.file == log.file && now.rot == log.rot && now.fresh == log.fresh
            &&& now.lines == log.lines + 1
            &&& now.bytes == log.bytes + encode_utf8(line).len() + 1
            &&& now.written == log.written + seq![line]
        }),
{
    assert(log.written.push(line) =~= log.written + seq![line]);
}

/// Lines are appended to one file, one after the other, as long as the file with
/// all of them has no more than 10485760 bytes.
pub open spec fn log_with_all(log: LogView, lines: Seq<Seq<char>>) -> LogView
    decreases lines.len(),
{
    if lines.len() == 0 {
        log
    } else {
        log_with(log_with_all(log, lines.drop_last()), lines.last())
    }
}

/// The bytes of lines, each with its line feed.
pub open spec fn bytes_of(lines: Seq<Seq<char>>) -> nat
    decreases lines.len(),
{
    if lines.len() == 0 {
        0
    } else {
        bytes_of(lines.drop_last()) + encode_utf8(lines.last()).len() + 1
    }
}

/// However many lines are appended, they all go into one file, as long as there
/// is room in it for all of them.
pub proof fn law_lines_go_into_one_file_while_there_is_room(log: LogView, lines: Seq<Seq<char>>)
    requires
        log.bytes + bytes_of(lines) <= 10485760,
    ensures
        log_with_all(log, lines).file == log.file,
        log_with_all(log, lines).written == log.written + lines,
        log_with_all(log, lines).lines == log.lines + lines.len(),
        log_with_all(log, lines).bytes == log.bytes + bytes_of(lines),
        log_with_all(log, lines).rot == log.rot,
    decreases lines.len(),
{
    if lines.len() == 0 {
        assert(log.written + lines =~= log.written);
    } else {
        let rest = lines.drop_last();
        law_lines_go_into_one_file_while_there_is_room(log, rest);
        law_new_file_is_begun_only_for_want_of_room(log_with_all(log, rest), lines.last());
        assert(log.written + rest + seq![lines.last()] =~= log.written + lines);
    }
}

/// A file has its header of 57 bytes, and each line with its line feed.
pub proof fn law_bytes_of_a_file(lines: Seq<Seq<char>>)
    ensures
        file_size(lines) == 57 + bytes_of(lines),
        LOG_HEADER@ == "timestamp_iso,v_set,v_meas,a_set,a_meas,w,mode,outp,info\n"@,
    decreases lines.len(),
{
    lemma_header_size();
    if lines.len() > 0 {
        law_bytes_of_a_file(lines.drop_last());
    }
}

/// A log that has just been started has its header and nothing else.
pub proof fn law_new_file_has_nothing_but_its_header(file: Seq<char>, rot: nat, fresh: bool)
    ensures
        ({
            let log = new_file(file, rot, fresh);
            log.file == file && log.lines == 0 && log.bytes == 57 && log.rot == rot && log.fresh == fresh
                && log.written.len() == 0
        }),
{
    lemma_header_size();
}

proof fn lemma_last_dot_of(t: Seq<char>, e: Seq<char>)
    requires
        e.len() > 0,
        e[0] == '.',
        forall|i: int| 0 < i < e.len() ==> #[trigger] e[i] != '.',
    ensures
        last_dot(t + e) == Some(t.len() as int),
    decreases e.len(),
{
    let s = t + e;
    if e.len() > 1 {
        let f = e.drop_last();
        assert(s.drop_last() =~= t + f);
        assert(s.last() == e[e.len() - 1]);
        assert forall|i: int| 0 < i < f.len() implies #[trigger] f[i] != '.' by {
            assert(f[i] == e[i]);
        }
        lemma_last_dot_of(t, f);
    } else {
        assert(s.last() == e[0]);
    }
}

/// The file that follows has the name of the one before it, with `_r` and the
/// count put in before the extension.
pub proof fn law_name_of_the_following_file(t: Seq<char>, rot: nat)
    requires
        t.len() > 0,
    ensures
        successor(t + ".csv"@, rot) == t + "_r"@ + decimal(rot) + ".csv"@,
{
    reveal_strlit(".csv");
    lemma_last_dot_of(t, ".csv"@);
    assert((t + ".csv"@).take(t.len() as int) =~= t);
}

/// A log is started under a name exactly if the name has no slash, no backslash
/// and no two dots in a row, and ends in `.csv`.
pub proof fn law_names_that_are_admitted(name: Seq<char>)
    ensures
        name_error(name) is None <==> {
            &&& !name.contains('/')
            &&& !name.contains('\\')
            &&& forall|i: int| 0 <= i && i + 1 < name.len() ==> !(#[trigger] name[i] == '.' && name[i + 1] == '.')
            &&& name.len() >= 4
            &&& name[name.len() - 4] == '.' && name[name.len() - 3] == 'c'
            &&& name[name.len() - 2] == 's' && name[name.len() - 1] == 'v'
        },
        name_error(name) == Some("ファイル名が不正です"@) <==> name.contains('/') || name.contains('\\') || exists|i: int|
            0 <= i && i + 1 < name.len() && (#[trigger] name[i] == '.' && name[i + 1] == '.'),
        name_error(name) is Some ==> name_error(name) == Some("ファイル名が不正です"@) || name_error(name) == Some(
            "拡張子は.csvのみ"@,
        ),
{
    lemma_strays(name);
    reveal_strlit(".csv");
    assert(".csv"@ =~= seq!['.', 'c', 's', 'v']);
    reveal_strlit("ファイル名が不正です");
    reveal_strlit("拡張子は.csvのみ");
    assert("ファイル名が不正です"@[0] == 'フ');
    assert("拡張子は.csvのみ"@[0] == '拡');
    if strays(name) {
        let i = choose|i: int|
            0 <= i < name.len() && (#[trigger] name[i] == '/' || name[i] == '\\' || (name[i] == '.' && i + 1
                < name.len() && name[i + 1] == '.'));
        assert(name[i] == '/' || name[i] == '\\' || (name[i] == '.' && name[i + 1] == '.'));
    } else {
        if name.contains('/') {
            let i = choose|i: int| 0 <= i < name.len() && name[i] == '/';
            assert(name[i] == '/');
        }
        if name.contains('\\') {
            let i = choose|i: int| 0 <= i < name.len() && name[i] == '\\';
            assert(name[i] == '\\');
        }
    }
    let n = name.len() as int;
    if n >= 4 {
        let e = name.subrange(n - 4, n);
        assert(e[0] == name[n - 4] && e[1] == name[n - 3] && e[2] == name[n - 2] && e[3] == name[n - 1]);
        if name[n - 4] == '.' && name[n - 3] == 'c' && name[n - 2] == 's' && name[n - 1] == 'v' {
            assert(e =~= ".csv"@);
        }
    }
}

} // verus!
