//! The `qsub` and `qdel` programs of the job scheduler: what is handed to
//! them and what is read back.
//!
//! The job that deletes a path later is `bash -c "sleep <delay> && rm -rf --
//! <path>"`. `qsub` runs until its job has ended, so it is left running once
//! its `[qsub] node <address>` line has been read.

use vstd::prelude::*;
use vstd::slice::slice_to_vec;

use crate::paths;
use crate::text;
use crate::text::{chars_of, push_decimal, same_text, skip_space, split_words};
use crate::time::Span;

verus! {

/// What `qsub` reported of a job that it accepted.
#[derive(Debug, Clone, PartialEq, Eq)]
pub struct QsubOutcome {
    /// Job address as reported on the `[qsub] node <address>` line.
    pub jobid: String,
    /// Workdir as reported on the same line, if present.
    pub workdir: Option<String>,
}

/// The contents of a [`QsubOutcome`].
pub struct OutcomeView {
    pub jobid: Seq<char>,
    pub workdir: Option<Seq<char>>,
}

impl View for QsubOutcome {
    type V = OutcomeView;

    open spec fn view(&self) -> OutcomeView {
        OutcomeView {
            jobid: self.jobid@,
            workdir: match self.workdir {
                Some(w) => Some(w@),
                None => None,
            },
        }
    }
}

/// Why a program of the scheduler could not be used.
#[derive(Debug)]
pub enum QsubError {
    /// The program is not on `PATH`: the scheduler's `env.sh` was probably
    /// not sourced.
    NotFound,
    /// `qsub` was found but exited or closed stderr before it printed the
    /// expected `[qsub] node <address>` line.
    NoJobAddress,
    /// Talking to the program failed; the system's description of how.
    Io(String),
}

/// The message for an error.
pub open spec fn error_text(e: QsubError) -> Seq<char> {
    match e {
        QsubError::NotFound =>
            "qsub not found on PATH — did you `source <tren-crc>/scheduler/env.sh`?"@,
        QsubError::NoJobAddress => "qsub closed before printing `[qsub] node …` job address"@,
        QsubError::Io(detail) => "qsub io: "@ + detail@,
    }
}

impl QsubError {
    /// The message for this error.
    pub fn text(&self) -> (s: String)
        ensures
            s@ == error_text(*self),
    {
        match self {
            QsubError::NotFound =>
                "qsub not found on PATH — did you `source <tren-crc>/scheduler/env.sh`?".to_owned(),
            QsubError::NoJobAddress =>
                "qsub closed before printing `[qsub] node …` job address".to_owned(),
            QsubError::Io(detail) => {
                let mut s = "qsub io: ".to_owned();
                s.append(detail.as_str());
                s
            },
        }
    }
}

/// The error for a program that could not be started, told from whether the
/// system found it and from the system's description of the failure.
pub fn launch_error(found: bool, detail: String) -> (e: QsubError)
    ensures
        e == (if found { QsubError::Io(detail) } else { QsubError::NotFound }),
{
    if found {
        QsubError::Io(detail)
    } else {
        QsubError::NotFound
    }
}

/// What `qsub` reports with `line`, if it is a `[qsub] node <address>` line:
/// the address is its next word, and the workdir the one after the word
/// `workdir`, where that follows.
pub open spec fn node_in(line: Seq<char>) -> Option<OutcomeView> {
    let t = text::trimmed(line);
    let prefix = "[qsub] node "@;
    if prefix.is_prefix_of(t) {
        let w = text::words(t.skip(prefix.len() as int));
        if w.len() > 0 {
            Some(
                OutcomeView {
                    jobid: w[0],
                    workdir: if w.len() >= 3 && w[1] == "workdir"@ {
                        Some(w[2])
                    } else {
                        None
                    },
                },
            )
        } else {
            None
        }
    } else {
        None
    }
}

/// A `[qsub] node <address>` line is read as such, whatever follows the
/// address and whatever white space comes first.
pub proof fn law_address_is_read(indent: Seq<char>, addr: Seq<char>, rest: Seq<char>)
    requires
        text::is_gap(indent),
        text::is_word(addr),
        rest.len() == 0 || text::is_space(rest[0]),
    ensures
        node_in(indent + ("[qsub] node "@ + (addr + rest))) is Some,
        node_in(indent + ("[qsub] node "@ + (addr + rest)))->0.jobid == addr,
{
    lemma_node_line(indent, addr + rest);
    text::lemma_words_of_word(addr, rest);
}

/// The workdir of a `[qsub] node <address> workdir <dir>` line is read.
pub proof fn law_workdir_is_read(
    addr: Seq<char>,
    gap1: Seq<char>,
    gap2: Seq<char>,
    dir: Seq<char>,
    rest: Seq<char>,
)
    requires
        text::is_word(addr),
        text::is_word(dir),
        text::is_gap(gap1),
        text::is_gap(gap2),
        gap1.len() > 0,
        gap2.len() > 0,
        rest.len() == 0 || text::is_space(rest[0]),
    ensures
        node_in("[qsub] node "@ + (addr + (gap1 + ("workdir"@ + (gap2 + (dir + rest)))))) == Some(
            OutcomeView { jobid: addr, workdir: Some(dir) },
        ),
{
    let after_tag = gap2 + (dir + rest);
    let tag = "workdir"@ + after_tag;
    let after_addr = gap1 + tag;
    reveal_strlit("workdir");
    assert(text::is_word("workdir"@));
    text::lemma_words_of_word(dir, rest);
    text::lemma_words_after_gap(gap2, dir + rest);
    assert(after_tag[0] == gap2[0]);
    text::lemma_words_of_word("workdir"@, after_tag);
    text::lemma_words_after_gap(gap1, tag);
    assert(after_addr[0] == gap1[0]);
    text::lemma_words_of_word(addr, after_addr);
    let line = "[qsub] node "@ + (addr + after_addr);
    lemma_node_line(Seq::empty(), addr + after_addr);
    assert(Seq::empty() + line =~= line);
    let w = text::words(addr + after_addr);
    assert(w[0] == addr && w[1] == "workdir"@ && w[2] == dir);
}

/// Only a `[qsub] node <address>` line is read as one: there is nothing but
/// white space in front of it, and the address is the first word behind it.
/// The workdir is the third word there, and the second is then `workdir`.
pub proof fn law_other_lines_are_ignored(line: Seq<char>)
    ensures
        node_in(line) is Some ==> exists|indent: Seq<char>, rest: Seq<char>|
            {
                let w = text::words(rest);
                &&& line == #[trigger] (indent + ("[qsub] node "@ + rest))
                &&& text::is_gap(indent)
                &&& w.len() > 0
                &&& node_in(line)->0.jobid == w[0]
                &&& text::is_word(w[0])
                &&& node_in(line)->0.workdir is Some <==> w.len() >= 3 && w[1] == "workdir"@
                &&& node_in(line)->0.workdir is Some ==> node_in(line)->0.workdir == Some(w[2])
            },
{
    if node_in(line) is Some {
        let prefix = "[qsub] node "@;
        let t = text::trimmed(line);
        let rest = t.skip(prefix.len() as int);
        text::lemma_trimmed_is_suffix(line);
        let indent = line.take(line.len() - t.len());
        assert(prefix + rest =~= t);
        assert(line =~= indent + (prefix + rest));
        text::lemma_first_word(rest);
    }
}

proof fn lemma_node_line(indent: Seq<char>, s: Seq<char>)
    requires
        text::is_gap(indent),
    ensures
        ({
            let t = text::trimmed(indent + ("[qsub] node "@ + s));
            &&& "[qsub] node "@.is_prefix_of(t)
            &&& t.skip("[qsub] node "@.len() as int) == s
        }),
{
    reveal_strlit("[qsub] node ");
    let prefix = "[qsub] node "@;
    let line = prefix + s;
    text::lemma_words_after_gap(indent, line);
    assert(line[0] == '[');
    assert(text::trimmed(line) == line);
    assert(line.skip(prefix.len() as int) =~= s);
    assert(prefix.is_prefix_of(line));
}

/// Whether `v` holds the text `prefix` at index `from`.
fn has_prefix_at(v: &Vec<char>, from: usize, prefix: &Vec<char>) -> (r: bool)
    requires
        from <= v@.len(),
    ensures
        r == prefix@.is_prefix_of(v@.skip(from as int)),
{
    let len: usize = v.len();
    if len - from < prefix.len() {
        return false;
    }
    let mut i: usize = 0;
    while i < prefix.len()
        invariant
            i <= prefix@.len() <= len - from,
            len == v@.len(),
            forall|j: int| 0 <= j < i ==> prefix@[j] == #[trigger] v@.skip(from as int)[j],
        decreases prefix@.len() - i,
    {
        assert(v@.skip(from as int)[i as int] == v@[from + i]);
        if v[from + i] != prefix[i] {
            assert(prefix@[i as int] != v@.skip(from as int)[i as int]);
            assert(!prefix@.is_prefix_of(v@.skip(from as int)));
            return false;
        }
        i = i + 1;
    }
    proof {
        assert(prefix@ =~= v@.skip(from as int).subrange(0, prefix@.len() as int));
    }
    true
}

/// Reads a `[qsub] node <address>` line.
pub fn parse_node_line(line: &str) -> (r: Option<QsubOutcome>)
    ensures
        r is Some <==> node_in(line@) is Some,
        r is Some ==> node_in(line@) == Some(r->0@),
{
    let v = chars_of(line);
    let start: usize = skip_space(&v, 0);
    proof {
        assert(v@.skip(0) =~= v@);
    }
    let prefix = chars_of("[qsub] node ");
    if !has_prefix_at(&v, start, &prefix) {
        return None;
    }
    let len: usize = v.len();
    assert(start + prefix@.len() <= len);
    let w = split_words(&v, start + prefix.len());
    proof {
        assert(v@.skip(start as int).skip(prefix@.len() as int) =~= v@.skip(
            start + prefix@.len(),
        ));
        assert forall|i: int| 0 <= i < w@.len() implies #[trigger] text::texts(w@)[i] == w@[i]@ by {
        }
    }
    if w.len() == 0 {
        return None;
    }
    let workdir = if w.len() >= 3 && same_text(w[1].as_str(), "workdir") {
        Some(w[2].clone())
    } else {
        None
    };
    Some(QsubOutcome { jobid: w[0].clone(), workdir })
}

/// `s` with each `apostrophe` written so that it can stand between
/// apostrophes: the quotation ends, an apostrophe after a `backslash`
/// follows, and the quotation starts again.
pub open spec fn quoted_body<T>(s: Seq<T>, apostrophe: T, backslash: T) -> Seq<T>
    decreases s.len(),
{
    if s.len() == 0 {
        Seq::empty()
    } else {
        (if s[0] == apostrophe {
            seq![apostrophe, backslash, apostrophe, apostrophe]
        } else {
            seq![s[0]]
        }) + quoted_body(s.drop_first(), apostrophe, backslash)
    }
}

/// `s` between apostrophes, as the shell needs it.
pub open spec fn quoted<T>(s: Seq<T>, apostrophe: T, backslash: T) -> Seq<T> {
    seq![apostrophe] + quoted_body(s, apostrophe, backslash) + seq![apostrophe]
}

/// The byte of an apostrophe.
pub const APOSTROPHE: u8 = 39;

/// The byte of a backslash.
pub const BACKSLASH: u8 = 92;

/// The byte of a line end.
pub const NEWLINE: u8 = 10;

/// The text `s` between apostrophes.
pub open spec fn shell_quoted(s: Seq<char>) -> Seq<char> {
    quoted(s, '\'', '\\')
}

/// The bytes `s` between apostrophes.
pub open spec fn shell_quoted_bytes(s: Seq<u8>) -> Seq<u8> {
    quoted(s, APOSTROPHE, BACKSLASH)
}

/// Quotes the text `s` so that the shell takes it as one word.
pub fn shell_single_quote(s: &str) -> (q: String)
    ensures
        q@ == shell_quoted(s@),
{
    let v = chars_of(s);
    let mut out = String::new();
    out.push('\'');
    let mut i: usize = 0;
    let ghost goal = seq!['\''] + quoted_body(s@, '\'', '\\');
    proof {
        assert(v@.skip(0) =~= v@);
        assert(out@ + quoted_body(v@.skip(0), '\'', '\\') =~= goal);
    }
    while i < v.len()
        invariant
            i <= v@.len(),
            out@ + quoted_body(v@.skip(i as int), '\'', '\\') == goal,
        decreases v@.len() - i,
    {
        let ghost before = out@;
        let c: char = v[i];
        proof {
            assert(v@.skip(i as int).drop_first() =~= v@.skip(i + 1));
        }
        if c == '\'' {
            out.push('\'');
            out.push('\\');
            out.push('\'');
            out.push('\'');
        } else {
            out.push(c);
        }
        i = i + 1;
        proof {
            assert(out@ + quoted_body(v@.skip(i as int), '\'', '\\') =~= before + quoted_body(
                v@.skip(i - 1),
                '\'',
                '\\',
            ));
        }
    }
    proof {
        assert(v@.skip(i as int) =~= Seq::empty());
        assert(out@ =~= goal);
    }
    out.push('\'');
    proof {
        assert(out@ =~= shell_quoted(s@));
    }
    out
}

/// Appends the bytes `s`, quoted so that the shell takes them as one word.
fn push_quoted(out: &mut Vec<u8>, s: &[u8])
    ensures
        final(out)@ == old(out)@ + shell_quoted_bytes(s@),
{
    let ghost start = out@;
    out.push(APOSTROPHE);
    let mut i: usize = 0;
    let ghost goal = start + seq![APOSTROPHE] + quoted_body(s@, APOSTROPHE, BACKSLASH);
    proof {
        assert(s@.skip(0) =~= s@);
        assert(out@ + quoted_body(s@.skip(0), APOSTROPHE, BACKSLASH) =~= goal);
    }
    while i < s.len()
        invariant
            i <= s@.len(),
            out@ + quoted_body(s@.skip(i as int), APOSTROPHE, BACKSLASH) == goal,
        decreases s@.len() - i,
    {
        let ghost before = out@;
        let b: u8 = s[i];
        proof {
            assert(s@.skip(i as int).drop_first() =~= s@.skip(i + 1));
        }
        if b == APOSTROPHE {
            out.push(APOSTROPHE);
            out.push(BACKSLASH);
            out.push(APOSTROPHE);
            out.push(APOSTROPHE);
        } else {
            out.push(b);
        }
        i = i + 1;
        proof {
            assert(out@ + quoted_body(s@.skip(i as int), APOSTROPHE, BACKSLASH) =~= before
                + quoted_body(s@.skip(i - 1), APOSTROPHE, BACKSLASH));
        }
    }
    proof {
        assert(s@.skip(i as int) =~= Seq::empty());
        assert(out@ =~= goal);
    }
    out.push(APOSTROPHE);
    proof {
        assert(out@ =~= start + shell_quoted_bytes(s@));
    }
}

/// Where the shell stands while it reads a word.
pub enum ShellMode {
    /// Outside any quotation.
    Plain,
    /// Between apostrophes, where everything else stands for itself.
    Quoted,
    /// After a backslash, which takes the meaning from what follows it.
    Escaped,
}

/// The value of the single word that the shell reads from `t`, as far as `t`
/// is made of quotations in apostrophes and of what follows a backslash and
/// is no line end; `None` where anything else occurs or a quotation is left
/// open.
pub open spec fn shell_word<T>(
    t: Seq<T>,
    mode: ShellMode,
    apostrophe: T,
    backslash: T,
    newline: T,
) -> Option<Seq<T>>
    decreases t.len(),
{
    if t.len() == 0 {
        if mode is Plain {
            Some(Seq::empty())
        } else {
            None
        }
    } else {
        let rest = t.drop_first();
        match mode {
            ShellMode::Plain => if t[0] == apostrophe {
                shell_word(rest, ShellMode::Quoted, apostrophe, backslash, newline)
            } else if t[0] == backslash {
                shell_word(rest, ShellMode::Escaped, apostrophe, backslash, newline)
            } else {
                None
            },
            ShellMode::Quoted => if t[0] == apostrophe {
                shell_word(rest, ShellMode::Plain, apostrophe, backslash, newline)
            } else {
                match shell_word(rest, ShellMode::Quoted, apostrophe, backslash, newline) {
                    Some(w) => Some(seq![t[0]] + w),
                    None => None,
                }
            },
            ShellMode::Escaped => if t[0] == newline {
                None
            } else {
                match shell_word(rest, ShellMode::Plain, apostrophe, backslash, newline) {
                    Some(w) => Some(seq![t[0]] + w),
                    None => None,
                }
            },
        }
    }
}

proof fn lemma_shell_reads_body<T>(s: Seq<T>, apostrophe: T, backslash: T, newline: T)
    requires
        apostrophe != backslash,
        apostrophe != newline,
    ensures
        shell_word(
            quoted_body(s, apostrophe, backslash) + seq![apostrophe],
            ShellMode::Quoted,
            apostrophe,
            backslash,
            newline,
        ) == Some(s),
    decreases s.len(),
{
    let t = quoted_body(s, apostrophe, backslash) + seq![apostrophe];
    if s.len() == 0 {
        reveal_with_fuel(shell_word, 2);
        assert(t =~= seq![apostrophe]);
        assert(t.drop_first() =~= Seq::empty());
        assert(s =~= Seq::empty());
    } else {
        let tail = s.drop_first();
        let rest = quoted_body(tail, apostrophe, backslash) + seq![apostrophe];
        lemma_shell_reads_body(tail, apostrophe, backslash, newline);
        assert(seq![s[0]] + tail =~= s);
        if s[0] == apostrophe {
            let t1 = t.drop_first();
            let t2 = t1.drop_first();
            let t3 = t2.drop_first();
            assert(t3.drop_first() =~= rest);
            assert(shell_word(t3, ShellMode::Plain, apostrophe, backslash, newline) == Some(tail));
            assert(shell_word(t2, ShellMode::Escaped, apostrophe, backslash, newline) == Some(s));
            assert(shell_word(t1, ShellMode::Plain, apostrophe, backslash, newline) == Some(s));
            assert(shell_word(t, ShellMode::Quoted, apostrophe, backslash, newline) == Some(s));
        } else {
            assert(t.drop_first() =~= rest);
        }
    }
}

proof fn lemma_shell_reads_back<T>(s: Seq<T>, apostrophe: T, backslash: T, newline: T)
    requires
        apostrophe != backslash,
        apostrophe != newline,
    ensures
        shell_word(
            quoted(s, apostrophe, backslash),
            ShellMode::Plain,
            apostrophe,
            backslash,
            newline,
        ) == Some(s),
{
    lemma_shell_reads_body(s, apostrophe, backslash, newline);
    assert(quoted(s, apostrophe, backslash).drop_first() =~= quoted_body(s, apostrophe, backslash)
        + seq![apostrophe]);
}

/// The value of the single word that the shell reads from the bytes `t`.
pub open spec fn shell_word_bytes(t: Seq<u8>) -> Option<Seq<u8>> {
    shell_word(t, ShellMode::Plain, APOSTROPHE, BACKSLASH, NEWLINE)
}

/// The shell reads a quoted text as one word, and that word is the text.
pub proof fn law_shell_reads_back(s: Seq<char>)
    ensures
        shell_word(shell_quoted(s), ShellMode::Plain, '\'', '\\', '\n') == Some(s),
{
    lemma_shell_reads_back(s, '\'', '\\', '\n');
}

/// The shell reads quoted bytes as one word, and that word is the bytes.
pub proof fn law_shell_reads_bytes_back(s: Seq<u8>)
    ensures
        shell_word_bytes(shell_quoted_bytes(s)) == Some(s),
{
    lemma_shell_reads_back(s, APOSTROPHE, BACKSLASH, NEWLINE);
}

/// No byte of a character is the byte of an apostrophe, but for the
/// apostrophe itself.
proof fn lemma_no_apostrophe(c: char, i: int)
    requires
        c != '\'',
        0 <= i < vstd::utf8::encode_scalar(c as u32).len(),
    ensures
        vstd::utf8::encode_scalar(c as u32)[i] != APOSTROPHE,
{
    let n = c as u32;
    vstd::utf8::char_is_scalar(c);
    if vstd::utf8::has_width_1_encoding(n) {
        assert(n != 39 ==> (n & 0x7F) as u8 != 39) by (bit_vector)
            requires
                n <= 0x7F,
        ;
    } else {
        assert(forall|x: u8| (0xC0u8 | x) >= 0x80u8) by (bit_vector);
        assert(forall|x: u8| (0xE0u8 | x) >= 0x80u8) by (bit_vector);
        assert(forall|x: u8| (0xF0u8 | x) >= 0x80u8) by (bit_vector);
        assert(forall|x: u8| (0x80u8 | x) >= 0x80u8) by (bit_vector);
    }
}

proof fn lemma_quoted_body_concat(a: Seq<u8>, b: Seq<u8>)
    requires
        forall|i: int| 0 <= i < a.len() ==> #[trigger] a[i] != APOSTROPHE,
    ensures
        quoted_body(a + b, APOSTROPHE, BACKSLASH) == a + quoted_body(b, APOSTROPHE, BACKSLASH),
    decreases a.len(),
{
    if a.len() == 0 {
        assert(a + b =~= b);
        assert(a + quoted_body(b, APOSTROPHE, BACKSLASH) =~= quoted_body(b, APOSTROPHE, BACKSLASH));
    } else {
        lemma_quoted_body_concat(a.drop_first(), b);
        assert((a + b).drop_first() =~= a.drop_first() + b);
        assert((a + b)[0] == a[0]);
        assert(seq![a[0]] + (a.drop_first() + quoted_body(b, APOSTROPHE, BACKSLASH)) =~= a
            + quoted_body(b, APOSTROPHE, BACKSLASH));
    }
}

proof fn lemma_encode_concat(a: Seq<char>, b: Seq<char>)
    ensures
        vstd::utf8::encode_utf8(a + b) == vstd::utf8::encode_utf8(a) + vstd::utf8::encode_utf8(b),
    decreases a.len(),
{
    if a.len() == 0 {
        assert(a + b =~= b);
        assert(vstd::utf8::encode_utf8(a) =~= Seq::empty());
    } else {
        lemma_encode_concat(a.drop_first(), b);
        assert((a + b).drop_first() =~= a.drop_first() + b);
        assert((a + b)[0] == a[0]);
    }
    assert(vstd::utf8::encode_utf8(a + b) =~= vstd::utf8::encode_utf8(a)
        + vstd::utf8::encode_utf8(b));
}

proof fn lemma_encode_apostrophes()
    ensures
        vstd::utf8::encode_utf8(seq!['\'']) == seq![APOSTROPHE],
        vstd::utf8::encode_utf8(seq!['\'', '\\', '\'', '\'']) == seq![
            APOSTROPHE,
            BACKSLASH,
            APOSTROPHE,
            APOSTROPHE,
        ],
{
    vstd::utf8::is_ascii_chars_encode_utf8(seq!['\'']);
    vstd::utf8::is_ascii_chars_encode_utf8(seq!['\'', '\\', '\'', '\'']);
    assert(vstd::utf8::encode_utf8(seq!['\'']) =~= seq![APOSTROPHE]);
    assert(vstd::utf8::encode_utf8(seq!['\'', '\\', '\'', '\'']) =~= seq![
        APOSTROPHE,
        BACKSLASH,
        APOSTROPHE,
        APOSTROPHE,
    ]);
}

proof fn lemma_body_of_bytes(s: Seq<char>)
    ensures
        vstd::utf8::encode_utf8(quoted_body(s, '\'', '\\')) == quoted_body(
            vstd::utf8::encode_utf8(s),
            APOSTROPHE,
            BACKSLASH,
        ),
    decreases s.len(),
{
    if s.len() > 0 {
        let c = s[0];
        let tail = s.drop_first();
        let first = vstd::utf8::encode_scalar(c as u32);
        let rest = vstd::utf8::encode_utf8(tail);
        lemma_body_of_bytes(tail);
        lemma_encode_apostrophes();
        let piece = if c == '\'' { seq!['\'', '\\', '\'', '\''] } else { seq![c] };
        lemma_encode_concat(piece, quoted_body(tail, '\'', '\\'));
        if c == '\'' {
            assert(seq!['\''] + tail =~= s);
            lemma_encode_concat(seq!['\''], tail);
            assert((seq![APOSTROPHE] + rest).drop_first() =~= rest);
        } else {
            assert(seq![c].drop_first() =~= Seq::empty());
            reveal_with_fuel(vstd::utf8::encode_utf8, 2);
            assert(vstd::utf8::encode_utf8(seq![c]) =~= first);
            assert forall|i: int| 0 <= i < first.len() implies #[trigger] first[i]
                != APOSTROPHE by {
                lemma_no_apostrophe(c, i);
            }
            lemma_quoted_body_concat(first, rest);
        }
    } else {
        assert(quoted_body(s, '\'', '\\') =~= Seq::empty());
    }
}

/// To quote a text is to quote its bytes.
pub proof fn law_text_is_quoted_as_its_bytes(s: Seq<char>)
    ensures
        vstd::utf8::encode_utf8(shell_quoted(s)) == shell_quoted_bytes(vstd::utf8::encode_utf8(s)),
{
    let body = quoted_body(s, '\'', '\\');
    lemma_body_of_bytes(s);
    lemma_encode_apostrophes();
    lemma_encode_concat(seq!['\''] + body, seq!['\'']);
    lemma_encode_concat(seq!['\''], body);
}

/// The part of the command that comes before the quoted path.
pub open spec fn delay_text(secs: nat) -> Seq<char> {
    "sleep "@ + text::decimal(secs) + " && rm -rf -- "@
}

/// The shell command that deletes the path `target` after `secs` seconds.
pub open spec fn delayed_rm_bytes(target: Seq<u8>, secs: nat) -> Seq<u8> {
    vstd::utf8::encode_utf8(delay_text(secs)) + shell_quoted_bytes(target)
}

/// What follows the options of `rm` in the command is one word, the path to
/// delete, whatever bytes the path has.
pub proof fn law_command_deletes_the_target(target: Seq<u8>, secs: nat)
    ensures
        vstd::utf8::encode_utf8(delay_text(secs)).is_prefix_of(delayed_rm_bytes(target, secs)),
        shell_word_bytes(
            delayed_rm_bytes(target, secs).skip(
                vstd::utf8::encode_utf8(delay_text(secs)).len() as int,
            ),
        ) == Some(target),
{
    law_shell_reads_bytes_back(target);
    assert(delayed_rm_bytes(target, secs).skip(
        vstd::utf8::encode_utf8(delay_text(secs)).len() as int,
    ) =~= shell_quoted_bytes(target));
}

/// The command sleeps for `secs` seconds and then deletes the target: it is
/// `sleep`, a numeral whose value is `secs`, `rm -rf --` and one word of the
/// shell, whose value is the target.
pub proof fn law_command_waits_and_deletes(target: Seq<u8>, secs: nat)
    ensures
        exists|numeral: Seq<char>|
            {
                let head = vstd::utf8::encode_utf8("sleep "@ + numeral + " && rm -rf -- "@);
                let command = delayed_rm_bytes(target, secs);
                &&& #[trigger] text::denotes(numeral, secs)
                &&& head.is_prefix_of(command)
                &&& shell_word_bytes(command.skip(head.len() as int)) == Some(target)
            },
{
    let numeral = text::decimal(secs);
    let head = vstd::utf8::encode_utf8("sleep "@ + numeral + " && rm -rf -- "@);
    text::law_decimal_denotes_the_number(secs);
    law_shell_reads_bytes_back(target);
    assert(delayed_rm_bytes(target, secs).skip(head.len() as int) =~= shell_quoted_bytes(target));
    assert(text::denotes(numeral, secs));
}

proof fn lemma_head_bytes(secs: nat, i: int)
    requires
        0 <= i < delay_text(secs).len(),
    ensures
        vstd::utf8::encode_utf8(delay_text(secs)).len() == delay_text(secs).len(),
        vstd::utf8::encode_utf8(delay_text(secs))[i] == delay_text(secs)[i] as u8,
{
    reveal_strlit("sleep ");
    reveal_strlit(" && rm -rf -- ");
    text::lemma_decimal_digits(secs);
    let t = delay_text(secs);
    assert forall|j: int| 0 <= j < t.len() implies '\0' <= #[trigger] t[j] <= '\u{7f}' by {
        let n = text::decimal(secs).len();
        if j < 6 {
            assert(t[j] == "sleep "@[j]);
        } else if j < 6 + n {
            assert(t[j] == text::decimal(secs)[j - 6]);
        } else {
            assert(t[j] == " && rm -rf -- "@[j - 6 - n]);
        }
    }
    vstd::utf8::is_ascii_chars_encode_utf8(t);
}

proof fn lemma_numeral_is_no_longer(t1: Seq<u8>, s1: nat, t2: Seq<u8>, s2: nat)
    requires
        delayed_rm_bytes(t1, s1) == delayed_rm_bytes(t2, s2),
    ensures
        text::decimal(s1).len() >= text::decimal(s2).len(),
{
    let n1 = text::decimal(s1).len();
    let n2 = text::decimal(s2).len();
    if n1 < n2 {
        reveal_strlit("sleep ");
        reveal_strlit(" && rm -rf -- ");
        let at = 6 + n1 as int;
        lemma_head_bytes(s1, at);
        lemma_head_bytes(s2, at);
        text::lemma_decimal_digits(s2);
        assert(delay_text(s1)[at] == " && rm -rf -- "@[0]);
        assert(delay_text(s2)[at] == text::decimal(s2)[n1 as int]);
        assert(delayed_rm_bytes(t1, s1)[at] == 32);
        let c = text::decimal(s2)[n1 as int];
        assert(48 <= c as u8 <= 57);
        assert(delayed_rm_bytes(t2, s2)[at] == c as u8);
    }
}

/// Commands that wait for different times or delete different paths differ.
pub proof fn law_commands_are_distinct(t1: Seq<u8>, s1: nat, t2: Seq<u8>, s2: nat)
    requires
        delayed_rm_bytes(t1, s1) == delayed_rm_bytes(t2, s2),
    ensures
        t1 == t2,
        s1 == s2,
{
    reveal_strlit("sleep ");
    reveal_strlit(" && rm -rf -- ");
    lemma_numeral_is_no_longer(t1, s1, t2, s2);
    lemma_numeral_is_no_longer(t2, s2, t1, s1);
    let d1 = text::decimal(s1);
    let d2 = text::decimal(s2);
    text::lemma_decimal_digits(s1);
    text::lemma_decimal_digits(s2);
    assert forall|i: int| 0 <= i < d1.len() implies d1[i] == d2[i] by {
        lemma_head_bytes(s1, i + 6);
        lemma_head_bytes(s2, i + 6);
        assert(delay_text(s1)[i + 6] == d1[i]);
        assert(delay_text(s2)[i + 6] == d2[i]);
        assert(delayed_rm_bytes(t1, s1)[i + 6] == d1[i] as u8);
        assert(delayed_rm_bytes(t2, s2)[i + 6] == d2[i] as u8);
    }
    assert(d1 =~= d2);
    text::lemma_decimal_injective(s1, s2);
    let n = vstd::utf8::encode_utf8(delay_text(s1)).len() as int;
    assert(delayed_rm_bytes(t1, s1).skip(n) =~= shell_quoted_bytes(t1));
    assert(delayed_rm_bytes(t2, s2).skip(n) =~= shell_quoted_bytes(t2));
    law_shell_reads_bytes_back(t1);
    law_shell_reads_bytes_back(t2);
}

proof fn lemma_quoted_body_parts<T>(a: Seq<T>, b: Seq<T>, apostrophe: T, backslash: T)
    ensures
        quoted_body(a + b, apostrophe, backslash) == quoted_body(a, apostrophe, backslash)
            + quoted_body(b, apostrophe, backslash),
    decreases a.len(),
{
    if a.len() == 0 {
        assert(a + b =~= b);
        assert(quoted_body(a, apostrophe, backslash) + quoted_body(b, apostrophe, backslash)
            =~= quoted_body(b, apostrophe, backslash));
    } else {
        lemma_quoted_body_parts(a.drop_first(), b, apostrophe, backslash);
        assert((a + b).drop_first() =~= a.drop_first() + b);
        assert((a + b)[0] == a[0]);
        assert(quoted_body(a + b, apostrophe, backslash) =~= quoted_body(a, apostrophe, backslash)
            + quoted_body(b, apostrophe, backslash));
    }
}

/// Bytes without an apostrophe are put between apostrophes as they are. Where
/// there is one, the quotation is that of what comes before it, without its
/// last apostrophe, then `'\''`, then that of what comes after it, without its
/// first apostrophe.
pub proof fn law_quotation_in_parts(a: Seq<u8>, b: Seq<u8>)
    ensures
        (forall|i: int| 0 <= i < a.len() ==> #[trigger] a[i] != 39) ==> shell_quoted_bytes(a)
            == seq![39u8] + a + seq![39u8],
        shell_quoted_bytes(a + seq![39u8] + b) == shell_quoted_bytes(a).drop_last() + seq![
            39u8,
            92u8,
            39u8,
            39u8,
        ] + shell_quoted_bytes(b).drop_first(),
{
    let none = Seq::<u8>::empty();
    if forall|i: int| 0 <= i < a.len() ==> #[trigger] a[i] != 39 {
        lemma_quoted_body_concat(a, none);
        assert(a + none =~= a);
        assert(a + quoted_body(none, APOSTROPHE, BACKSLASH) =~= a);
    }
    lemma_quoted_body_parts(a, seq![39u8] + b, APOSTROPHE, BACKSLASH);
    lemma_quoted_body_parts(seq![39u8], b, APOSTROPHE, BACKSLASH);
    assert(a + seq![39u8] + b =~= a + (seq![39u8] + b));
    assert(seq![39u8].drop_first() =~= none);
    reveal_with_fuel(quoted_body, 2);
    assert(quoted_body(seq![39u8], APOSTROPHE, BACKSLASH) =~= seq![39u8, 92u8, 39u8, 39u8]);
    assert(shell_quoted_bytes(a + seq![39u8] + b) =~= shell_quoted_bytes(a).drop_last() + seq![
        39u8,
        92u8,
        39u8,
        39u8,
    ] + shell_quoted_bytes(b).drop_first());
}

/// The shell command that deletes the path `target` once `delay` has passed;
/// parts of a second are not waited for.
pub fn delayed_rm_command(target: &[u8], delay: &Span) -> (cmd: Vec<u8>)
    ensures
        cmd@ == delayed_rm_bytes(target@, delay@ / (crate::time::NANOS_PER_SEC as nat)),
{
    let mut sleep = "sleep ".to_owned();
    push_decimal(&mut sleep, delay.as_secs());
    sleep.append(" && rm -rf -- ");
    let mut cmd: Vec<u8> = slice_to_vec(sleep.as_str().as_bytes());
    push_quoted(&mut cmd, target);
    cmd
}

/// A program to start and the arguments, as bytes, to start it with.
#[derive(Debug, Clone, PartialEq, Eq)]
pub struct Launch {
    pub program: String,
    pub args: Vec<Vec<u8>>,
}

/// The program to run: the one configured, where there is one, else `default`.
pub open spec fn program_of(configured: Option<String>, default: Seq<char>) -> Seq<char> {
    match configured {
        Some(p) => p@,
        None => default,
    }
}

/// The program to run: the one configured, where there is one, else `default`.
fn program_or(configured: Option<String>, default: &str) -> (program: String)
    ensures
        program@ == program_of(configured, default@),
{
    match configured {
        Some(p) => p,
        None => default.to_owned(),
    }
}

/// The arguments with which `qsub` is to delete `target` once `delay`
/// nanoseconds have passed.
pub open spec fn qsub_args(target: Seq<u8>, delay: nat) -> Seq<Seq<u8>> {
    seq![
        vstd::utf8::encode_utf8("bash"@),
        vstd::utf8::encode_utf8("-c"@),
        delayed_rm_bytes(target, delay / (crate::time::NANOS_PER_SEC as nat)),
    ]
}

/// What `qsub` is handed is `bash -c` and one command, which sleeps for the
/// whole seconds of the delay, a numeral says how many, and then deletes the
/// target.
pub proof fn law_job_waits_and_deletes(target: Seq<u8>, delay: nat)
    ensures
        qsub_args(target, delay).len() == 3,
        qsub_args(target, delay)[0] == vstd::utf8::encode_utf8("bash"@),
        qsub_args(target, delay)[1] == vstd::utf8::encode_utf8("-c"@),
        exists|numeral: Seq<char>, secs: nat|
            {
                let head = vstd::utf8::encode_utf8("sleep "@ + numeral + " && rm -rf -- "@);
                let command = qsub_args(target, delay)[2];
                &&& #[trigger] text::denotes(numeral, secs)
                &&& secs * 1_000_000_000 <= delay < (secs + 1) * 1_000_000_000
                &&& head.is_prefix_of(command)
                &&& shell_word_bytes(command.skip(head.len() as int)) == Some(target)
            },
{
    let secs = delay / 1_000_000_000;
    law_command_waits_and_deletes(target, secs);
    assert(secs * 1_000_000_000 <= delay < (secs + 1) * 1_000_000_000);
}

/// A program that was configured is the one that is run.
pub proof fn law_configured_program_is_run(configured: Option<String>, default: Seq<char>)
    ensures
        configured is Some ==> program_of(configured, default) == configured->0@,
        configured is None ==> program_of(configured, default) == default,
{
}

/// How `qsub` is started to have the path `target` deleted once `delay` has
/// passed.
pub fn submit_delayed_rm_with_bin(qsub_bin: String, target: &[u8], delay: &Span) -> (l: Launch)
    ensures
        l.program@ == qsub_bin@,
        paths::bytes_of(l.args@) == qsub_args(target@, delay@),
{
    let mut args: Vec<Vec<u8>> = Vec::new();
    args.push(slice_to_vec("bash".as_bytes()));
    args.push(slice_to_vec("-c".as_bytes()));
    args.push(delayed_rm_command(target, delay));
    assert(paths::bytes_of(args@) =~= qsub_args(target@, delay@));
    Launch { program: qsub_bin, args }
}

/// How the `qsub` that the value of `BOMB_TTL_QSUB_BIN` names is started to
/// have the path `target` deleted once `delay` has passed.
pub fn submit_delayed_rm(configured: Option<String>, target: &[u8], delay: &Span) -> (l: Launch)
    ensures
        l.program@ == program_of(configured, "qsub"@),
        paths::bytes_of(l.args@) == qsub_args(target@, delay@),
{
    submit_delayed_rm_with_bin(program_or(configured, "qsub"), target, delay)
}

/// The arguments with which `qdel` is to delete the job `jobid`.
pub open spec fn qdel_args(jobid: Seq<char>) -> Seq<Seq<u8>> {
    seq![vstd::utf8::encode_utf8(jobid)]
}

/// `qdel` is handed the job, as it was reported, and nothing else.
pub proof fn law_job_is_deleted_by_its_address(jobid: Seq<char>)
    ensures
        qdel_args(jobid).len() == 1,
        text::shown(qdel_args(jobid)[0]) == jobid,
{
    text::law_text_is_shown_as_it_is(jobid);
}

/// How the `qdel` that the value of `BOMB_TTL_QDEL_BIN` names is started to
/// delete the queued job `jobid`.
pub fn qdel(configured: Option<String>, jobid: &str) -> (l: Launch)
    ensures
        l.program@ == program_of(configured, "qdel"@),
        paths::bytes_of(l.args@) == seq![vstd::utf8::encode_utf8(jobid@)],
        paths::bytes_of(l.args@) == qdel_args(jobid@),
{
    let mut args: Vec<Vec<u8>> = Vec::new();
    args.push(slice_to_vec(jobid.as_bytes()));
    assert(paths::bytes_of(args@) =~= qdel_args(jobid@));
    Launch { program: program_or(configured, "qdel"), args }
}

/// The number of lines of the standard output stream that are looked at.
pub const MAX_LINES: u32 = 16;

/// What the search for the `[qsub] node <address>` line wants next.
#[derive(Debug, Clone, Copy, PartialEq, Eq, Structural)]
pub enum SearchStep {
    /// The next line of the standard error stream.
    ReadStderr,
    /// The next line of the standard output stream.
    ReadStdout,
    /// Nothing: the search is over.
    Done,
}

/// The search for the `[qsub] node <address>` line in what `qsub` prints:
/// first on stderr, until that ends, then in the first lines of stdout.
#[derive(Debug)]
pub struct NodeSearch {
    step: SearchStep,
    lines: u32,
    has_stdout: bool,
    found: Option<QsubOutcome>,
}

/// The contents of a [`NodeSearch`].
pub struct SearchView {
    /// What the search wants next.
    pub step: SearchStep,
    /// The number of lines of stdout that held no address.
    pub lines: nat,
    /// Whether there is a standard output stream to turn to.
    pub has_stdout: bool,
    /// What was found.
    pub found: Option<OutcomeView>,
}

/// The search, turned to the next stream.
pub open spec fn next_stream(v: SearchView) -> SearchView {
    SearchView {
        step: if v.step is ReadStderr && v.has_stdout {
            SearchStep::ReadStdout
        } else {
            SearchStep::Done
        },
        ..v
    }
}

/// The search after it was handed the line it wanted, or after it was told
/// that there is none (the stream ended or could not be read).
pub open spec fn search_after(v: SearchView, line: Option<Seq<char>>) -> SearchView {
    match line {
        Some(l) => if node_in(l) is Some {
            SearchView { step: SearchStep::Done, found: node_in(l), ..v }
        } else if v.step is ReadStdout {
            SearchView {
                step: if v.lines + 1 >= MAX_LINES {
                    SearchStep::Done
                } else {
                    SearchStep::ReadStdout
                },
                lines: v.lines + 1,
                ..v
            }
        } else {
            v
        },
        None => next_stream(v),
    }
}

impl View for NodeSearch {
    type V = SearchView;

    closed spec fn view(&self) -> SearchView {
        SearchView {
            step: self.step,
            lines: self.lines as nat,
            has_stdout: self.has_stdout,
            found: match self.found {
                Some(o) => Some(o@),
                None => None,
            },
        }
    }
}

/// A search that has not read a line yet.
pub open spec fn new_search(has_stderr: bool, has_stdout: bool) -> SearchView {
    SearchView {
        step: if has_stderr { SearchStep::ReadStderr } else { SearchStep::Done },
        lines: 0,
        has_stdout,
        found: None,
    }
}

impl NodeSearch {
    #[verifier::type_invariant]
    closed spec fn well_formed(self) -> bool {
        &&& self.step == SearchStep::ReadStderr ==> self.lines == 0
        &&& self.step == SearchStep::ReadStdout ==> self.lines < MAX_LINES
        &&& self.step != SearchStep::Done ==> self.found is None
    }

    /// A new search in the streams that there are. Without a standard error
    /// stream it is over at once.
    pub fn new(has_stderr: bool, has_stdout: bool) -> (s: NodeSearch)
        ensures
            s@ == new_search(has_stderr, has_stdout),
    {
        NodeSearch {
            step: if has_stderr { SearchStep::ReadStderr } else { SearchStep::Done },
            lines: 0,
            has_stdout,
            found: None,
        }
    }

    /// What the search wants next.
    pub fn step(&self) -> (step: SearchStep)
        ensures
            step == self@.step,
    {
        self.step
    }

    /// Hands the search the line that it wants, or `None` where the stream
    /// has ended or could not be read.
    pub fn feed(&mut self, line: Option<&str>)
        requires
            !(old(self)@.step is Done),
        ensures
            final(self)@ == search_after(
                old(self)@,
                match line {
                    Some(l) => Some(l@),
                    None => None,
                },
            ),
    {
        proof {
            use_type_invariant(&*self);
        }
        if let Some(l) = line {
            let outcome = parse_node_line(l);
            if outcome.is_some() {
                *self = NodeSearch {
                    step: SearchStep::Done,
                    lines: self.lines,
                    has_stdout: self.has_stdout,
                    found: outcome,
                };
                return ;
            }
            if self.step == SearchStep::ReadStdout {
                let lines: u32 = self.lines + 1;
                *self = NodeSearch {
                    step: if lines < MAX_LINES {
                        SearchStep::ReadStdout
                    } else {
                        SearchStep::Done
                    },
                    lines,
                    has_stdout: self.has_stdout,
                    found: None,
                };
            }
            return ;
        }
        let next = if self.step == SearchStep::ReadStderr && self.has_stdout {
            SearchStep::ReadStdout
        } else {
            SearchStep::Done
        };
        self.step = next;
    }

    /// What the search has found.
    pub fn finish(self) -> (r: Result<QsubOutcome, QsubError>)
        ensures
            r is Ok <==> self@.found is Some,
            r is Ok ==> Some(r->Ok_0@) == self@.found,
            r is Err ==> r->Err_0 is NoJobAddress,
    {
        match self.found {
            Some(o) => Ok(o),
            None => Err(QsubError::NoJobAddress),
        }
    }
}

/// What is found by a search from `v` on that reads `errs` on stderr and
/// `outs` on stdout, until each ends.
pub open spec fn search_result(
    v: SearchView,
    errs: Seq<Seq<char>>,
    outs: Seq<Seq<char>>,
) -> Option<OutcomeView>
    decreases
            (match v.step {
                SearchStep::ReadStderr => 2int,
                SearchStep::ReadStdout => 1int,
                SearchStep::Done => 0int,
            }),
            errs.len() + outs.len(),
{
    match v.step {
        SearchStep::ReadStderr => if errs.len() > 0 {
            search_result(search_after(v, Some(errs[0])), errs.drop_first(), outs)
        } else {
            search_result(search_after(v, None), errs, outs)
        },
        SearchStep::ReadStdout => if outs.len() > 0 {
            search_result(search_after(v, Some(outs[0])), errs, outs.drop_first())
        } else {
            search_result(search_after(v, None), errs, outs)
        },
        SearchStep::Done => v.found,
    }
}

/// What the first of the first `n` lines that is a `[qsub] node <address>`
/// line reports.
pub open spec fn first_node(lines: Seq<Seq<char>>, n: nat) -> Option<OutcomeView>
    decreases n,
{
    if n == 0 || lines.len() == 0 {
        None
    } else if node_in(lines[0]) is Some {
        node_in(lines[0])
    } else {
        first_node(lines.drop_first(), (n - 1) as nat)
    }
}

proof fn lemma_search_stdout(v: SearchView, errs: Seq<Seq<char>>, outs: Seq<Seq<char>>)
    requires
        v.step is ReadStdout,
        v.lines < MAX_LINES,
        v.found is None,
    ensures
        search_result(v, errs, outs) == first_node(outs, (MAX_LINES - v.lines) as nat),
    decreases outs.len(),
{
    reveal_with_fuel(first_node, 2);
    reveal_with_fuel(search_result, 3);
    if outs.len() > 0 && node_in(outs[0]) is None && v.lines + 1 < MAX_LINES {
        lemma_search_stdout(search_after(v, Some(outs[0])), errs, outs.drop_first());
    }
}

proof fn lemma_search_stderr(v: SearchView, errs: Seq<Seq<char>>, outs: Seq<Seq<char>>)
    requires
        v.step is ReadStderr,
        v.lines == 0,
        v.found is None,
    ensures
        search_result(v, errs, outs) == (match first_node(errs, errs.len()) {
            Some(o) => Some(o),
            None => if v.has_stdout {
                first_node(outs, MAX_LINES as nat)
            } else {
                None
            },
        }),
    decreases errs.len(),
{
    reveal_with_fuel(first_node, 2);
    reveal_with_fuel(search_result, 2);
    if errs.len() == 0 {
        if v.has_stdout {
            lemma_search_stdout(next_stream(v), errs, outs);
        }
    } else if node_in(errs[0]) is None {
        lemma_search_stderr(v, errs.drop_first(), outs);
    }
}

/// A search finds the first `[qsub] node <address>` line of stderr, however
/// many lines come before it, else the first one among the first lines of
/// stdout, and nothing else.
pub proof fn law_search_finds_the_first_node(
    has_stderr: bool,
    has_stdout: bool,
    errs: Seq<Seq<char>>,
    outs: Seq<Seq<char>>,
)
    ensures
        search_result(new_search(has_stderr, has_stdout), errs, outs) == (if !has_stderr {
            None
        } else {
            match first_node(errs, errs.len()) {
                Some(o) => Some(o),
                None => if has_stdout {
                    first_node(outs, MAX_LINES as nat)
                } else {
                    None
                },
            }
        }),
{
    if has_stderr {
        lemma_search_stderr(new_search(has_stderr, has_stdout), errs, outs);
    }
}

/// A line of stderr without an address leaves the search where it is: it
/// gives up on stderr only when stderr has ended or cannot be read.
pub proof fn law_search_stays_on_stderr(v: SearchView, line: Seq<char>)
    requires
        v.step is ReadStderr,
        node_in(line) is None,
    ensures
        search_after(v, Some(line)) == v,
{
}

/// A search is over once it was handed a `[qsub] node <address>` line, on
/// whichever stream, and has found what that line reports.
pub proof fn law_search_ends_with_a_node_line(v: SearchView, line: Seq<char>)
    requires
        !(v.step is Done),
        node_in(line) is Some,
    ensures
        search_after(v, Some(line)).step is Done,
        search_after(v, Some(line)).found == node_in(line),
{
}

/// Where stderr ends, a search turns to stdout, if there is such a stream;
/// where stdout ends or its 16th line has no address either, it is over. A
/// line without an address, or none, finds nothing.
pub proof fn law_search_without_a_node_line(v: SearchView, line: Option<Seq<char>>)
    requires
        !(v.step is Done),
        line is Some ==> node_in(line->0) is None,
    ensures
        search_after(v, line).found == v.found,
        v.step is ReadStderr && line is None && v.has_stdout ==> search_after(
            v,
            line,
        ).step is ReadStdout,
        v.step is ReadStderr && line is None && !v.has_stdout ==> search_after(v, line).step is Done,
        v.step is ReadStdout && line is None ==> search_after(v, line).step is Done,
        v.step is ReadStdout && line is Some ==> {
            &&& search_after(v, line).lines == v.lines + 1
            &&& search_after(v, line).step is Done <==> v.lines + 1 >= 16
        },
{
}

/// A failure to talk to a program is told with its description, after what it
/// was about.
pub proof fn law_failure_is_described(detail: String)
    ensures
        error_text(QsubError::Io(detail)) == "qsub io: "@ + detail@,
{
}

} // verus!
