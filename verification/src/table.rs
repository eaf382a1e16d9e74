//! The command table: which command a chord launches.
//!
//! The table is written as text, one binding per line: the presses of
//! the chord, separated by spaces, then a tab, then the command. A line
//! that begins with `#` is a comment. A line without a tab, or without
//! any press before the tab, binds nothing. Where two lines bind the same
//! chord, the later one holds.

use vstd::prelude::*;
use vstd::slice::slice_subrange;
use vstd::string::{StrSliceExecFns, StringExecFns};
use crate::digits::{chars_of, is_number, number_value, parse_number};

verus! {

/// A chord and the command it launches.
#[derive(Debug, PartialEq, Eq)]
pub struct Binding {
    /// The presses, first to last.
    pub chord: Vec<u32>,
    /// The command, as it is handed to the shell.
    pub command: String,
}

/// A fault in the text of a command table.
#[derive(Debug, PartialEq, Eq)]
pub enum ConfigError {
    /// A press before the tab is not a number that fits 32 bits.
    MalformedId {
        /// The line of the fault, counted from 1.
        line: usize,
        /// The offending token.
        token: String,
    },
}

/// What stands before the offending token in the words of a fault.
pub const MALFORMED_ID_BEFORE: &'static str = "`";

/// What stands behind the offending token in the words of a fault.
pub const MALFORMED_ID_BEHIND: &'static str = "' is not suitable for id number";

impl ConfigError {
    /// The fault in words: the offending token in quotes, and what is
    /// wrong with it.
    pub fn message(&self) -> (text: String)
        ensures
            self matches ConfigError::MalformedId { line, token } ==> text@ == MALFORMED_ID_BEFORE@
                + token@ + MALFORMED_ID_BEHIND@,
    {
        match self {
            ConfigError::MalformedId { line, token } => String::from_str(
                MALFORMED_ID_BEFORE,
            ).concat(token.as_str()).concat(MALFORMED_ID_BEHIND),
        }
    }

    /// The line of the fault, counted from 1.
    pub fn line(&self) -> (number: usize)
        ensures
            self matches ConfigError::MalformedId { line, token } ==> number == line,
    {
        match self {
            ConfigError::MalformedId { line, token } => *line,
        }
    }
}

/// What a line of the table says.
pub enum Line {
    /// Nothing: a comment, a line without a tab, or one without a press.
    Skipped,
    /// That `chord` launches `command`.
    Bound { chord: Seq<u32>, command: Seq<char> },
    /// Nothing that can be read: `token` stands where a press should.
    Malformed { token: Seq<char> },
}

/// The index of the first `c` in `s`, or the length of `s` where there
/// is none.
pub open spec fn first_index(s: Seq<char>, c: char) -> nat
    decreases s.len(),
{
    if s.len() == 0 || s[0] == c {
        0
    } else {
        1 + first_index(s.drop_first(), c)
    }
}

/// The lines of a text. Each newline ends a line, and a carriage return
/// right before the newline goes with it. What follows the last newline
/// is a line too, unless it is empty.
pub open spec fn lines_of(text: Seq<char>) -> Seq<Seq<char>>
    decreases text.len(),
{
    if text.len() == 0 {
        Seq::empty()
    } else {
        let n = first_index(text, '\n') as int;
        if n >= text.len() {
            seq![text]
        } else {
            seq![without_return(text.take(n))] + lines_of(text.skip(n + 1))
        }
    }
}

/// The line without the carriage return at its end, if it has one.
pub open spec fn without_return(line: Seq<char>) -> Seq<char> {
    if line.len() > 0 && line.last() == '\r' {
        line.drop_last()
    } else {
        line
    }
}

/// The tokens of a field: the runs of characters between its spaces,
/// empty runs left out.
pub open spec fn tokens(field: Seq<char>) -> Seq<Seq<char>>
    decreases field.len(),
{
    if field.len() == 0 {
        Seq::empty()
    } else {
        let n = first_index(field, ' ') as int;
        if n >= field.len() {
            seq![field]
        } else if n == 0 {
            tokens(field.skip(1))
        } else {
            seq![field.take(n)] + tokens(field.skip(n + 1))
        }
    }
}

/// The token names a press: it is a number that fits 32 bits.
pub open spec fn is_id(token: Seq<char>) -> bool {
    is_number(token, u32::MAX as int)
}

/// Every token names a press.
pub open spec fn all_ids(toks: Seq<Seq<char>>) -> bool {
    forall|t: int| 0 <= t < toks.len() ==> is_id(#[trigger] toks[t])
}

/// `t` is the place of the first token that names no press.
pub open spec fn is_first_bad(toks: Seq<Seq<char>>, t: int) -> bool {
    &&& 0 <= t < toks.len()
    &&& !is_id(toks[t])
    &&& forall|u: int| 0 <= u < t ==> is_id(#[trigger] toks[u])
}

/// The first token that names no press.
pub open spec fn first_bad(toks: Seq<Seq<char>>) -> Seq<char> {
    toks[choose|t: int| is_first_bad(toks, t)]
}

/// The presses that the tokens name.
pub open spec fn ids_of(toks: Seq<Seq<char>>) -> Seq<u32> {
    Seq::new(toks.len(), |t: int| number_value(toks[t]) as u32)
}

/// Reads one line of the table.
pub open spec fn read_line(line: Seq<char>) -> Line {
    let tab = first_index(line, '\t') as int;
    if (line.len() > 0 && line[0] == '#') || tab >= line.len() {
        Line::Skipped
    } else {
        let toks = tokens(line.take(tab));
        if !all_ids(toks) {
            Line::Malformed { token: first_bad(toks) }
        } else if toks.len() == 0 {
            Line::Skipped
        } else {
            Line::Bound { chord: ids_of(toks), command: line.skip(tab + 1) }
        }
    }
}

/// The first `c` of `s` is found by its three marks: it is within `s` or
/// right behind it, no `c` stands before it, and `c` stands at it unless
/// it is the end.
pub proof fn lemma_first_index(s: Seq<char>, c: char, i: int)
    requires
        0 <= i <= s.len(),
        forall|j: int| 0 <= j < i ==> s[j] != c,
        i < s.len() ==> s[i] == c,
    ensures
        first_index(s, c) == i,
    decreases s.len(),
{
    if s.len() == 0 || s[0] == c {
    } else {
        lemma_first_index(s.drop_first(), c, i - 1);
    }
}

/// Finds the first `c` in `s`.
pub fn find(s: &[char], c: char) -> (i: usize)
    ensures
        i == first_index(s@, c),
        i <= s@.len(),
{
    let mut i: usize = 0;
    while i < s.len() && s[i] != c
        invariant
            i <= s.len(),
            forall|j: int| 0 <= j < i ==> s@[j] != c,
        decreases s.len() - i,
    {
        i = i + 1;
    }
    proof {
        lemma_first_index(s@, c, i as int);
    }
    i
}

/// Whether two chords are the same, press for press.
pub fn same_chord(a: &[u32], b: &[u32]) -> (same: bool)
    ensures
        same == (a@ == b@),
{
    if a.len() != b.len() {
        return false;
    }
    let mut i: usize = 0;
    while i < a.len()
        invariant
            i <= a.len(),
            a.len() == b.len(),
            forall|j: int| 0 <= j < i ==> a@[j] == b@[j],
        decreases a.len() - i,
    {
        if a[i] != b[i] {
            return false;
        }
        i = i + 1;
    }
    assert(a@ =~= b@);
    true
}

/// Reads the presses that stand before the tab of a line.
fn read_field(line: &str, chars: &[char], tab: usize) -> (r: Result<Vec<u32>, String>)
    requires
        chars@ == line@,
        tab <= chars@.len(),
    ensures
        all_ids(tokens(line@.take(tab as int))) ==> (r matches Ok(ids) && ids@ == ids_of(
            tokens(line@.take(tab as int)),
        )),
        !all_ids(tokens(line@.take(tab as int))) ==> (r matches Err(token) && token@ == first_bad(
            tokens(line@.take(tab as int)),
        )),
{
    let ghost field = line@.take(tab as int);
    let ghost toks = tokens(field);
    let ghost mut done: Seq<Seq<char>> = Seq::empty();
    let mut ids: Vec<u32> = Vec::new();
    let mut i: usize = 0;
    assert(field.skip(0) =~= field);
    while i < tab
        invariant
            i <= tab <= chars@.len(),
            chars@ == line@,
            field == line@.take(tab as int),
            toks == tokens(field),
            toks == done + tokens(field.skip(i as int)),
            done.len() == ids@.len(),
            forall|t: int| 0 <= t < done.len() ==> is_id(#[trigger] done[t]),
            forall|t: int| 0 <= t < done.len() ==> ids@[t] == number_value(#[trigger] done[t]),
        decreases tab - i,
    {
        let ghost rest = field.skip(i as int);
        let tail = slice_subrange(chars, i, tab);
        assert(tail@ =~= rest);
        let n = find(tail, ' ');
        let j: usize = i + n;
        let next: usize = if j < tab {
            j + 1
        } else {
            tab
        };
        proof {
            if n < rest.len() {
                assert(rest.skip(n + 1) =~= field.skip(next as int));
            } else {
                assert(field.skip(next as int) =~= Seq::<char>::empty());
                assert(rest.take(n as int) =~= rest);
            }
        }
        if n > 0 {
            let token = slice_subrange(chars, i, j);
            assert(token@ =~= rest.take(n as int));
            assert(toks =~= done.push(token@) + tokens(field.skip(next as int)));
            match parse_number(token, 0xffff_ffff) {
                Some(v) => {
                    ids.push(v as u32);
                    proof {
                        done = done.push(token@);
                    }
                },
                None => {
                    let text = line.substring_char(i, j);
                    proof {
                        let at = done.len() as int;
                        assert(toks[at] == token@);
                        assert(is_first_bad(toks, at));
                        let chosen = choose|t: int| is_first_bad(toks, t);
                        assert(is_first_bad(toks, chosen));
                        if chosen < at {
                            assert(is_id(done[chosen]));
                        }
                        assert(chosen == at);
                        assert(text@ =~= token@);
                    }
                    return Err(String::from_str(text));
                },
            }
        }
        i = next;
    }
    proof {
        assert(field.skip(tab as int) =~= Seq::<char>::empty());
        assert(toks =~= done);
        assert(ids@ =~= ids_of(toks));
    }
    Ok(ids)
}

/// Reads one line of the table: the binding it holds, or `None` where it
/// holds none, or the first token that stands where a press should and
/// names none.
pub fn parse_line(line: &str) -> (r: Result<Option<Binding>, String>)
    ensures
        read_line(line@) is Skipped ==> r == Ok::<Option<Binding>, String>(None),
        read_line(line@) matches Line::Bound { chord, command } ==> (r matches Ok(Some(binding))
            && binding.chord@ == chord && binding.command@ == command),
        read_line(line@) matches Line::Malformed { token } ==> (r matches Err(bad) && bad@
            == token),
{
    let chars = chars_of(line);
    let len = chars.len();
    if len > 0 && chars[0] == '#' {
        return Ok(None);
    }
    let tab = find(chars.as_slice(), '\t');
    if tab >= len {
        return Ok(None);
    }
    match read_field(line, chars.as_slice(), tab) {
        Err(token) => Err(token),
        Ok(chord) => {
            if chord.len() == 0 {
                Ok(None)
            } else {
                let command = String::from_str(line.substring_char(tab + 1, len));
                Ok(Some(Binding { chord, command }))
            }
        },
    }
}

/// The command table of an invocation. It is read once and not changed
/// afterwards.
#[derive(Debug)]
pub struct CommandTable {
    bindings: Vec<Binding>,
}

/// What a list of bindings binds: each chord to the command of its last
/// binding.
pub open spec fn bound_by(bindings: Seq<Binding>) -> Map<Seq<u32>, Seq<char>>
    decreases bindings.len(),
{
    if bindings.len() == 0 {
        Map::empty()
    } else {
        bound_by(bindings.drop_last()).insert(bindings.last().chord@, bindings.last().command@)
    }
}

/// The texts of a list of strings.
pub open spec fn texts(lines: Seq<String>) -> Seq<Seq<char>> {
    Seq::new(lines.len(), |i: int| lines[i]@)
}

/// The table that the lines describe, read from the first line to the
/// last: a line that binds a chord replaces what an earlier line bound it
/// to.
pub open spec fn table_of(lines: Seq<Seq<char>>) -> Map<Seq<u32>, Seq<char>>
    decreases lines.len(),
{
    if lines.len() == 0 {
        Map::empty()
    } else {
        match read_line(lines.last()) {
            Line::Bound { chord, command } => table_of(lines.drop_last()).insert(chord, command),
            _ => table_of(lines.drop_last()),
        }
    }
}

/// No line can be read as malformed.
pub open spec fn readable(lines: Seq<Seq<char>>) -> bool {
    forall|i: int| 0 <= i < lines.len() ==> !(read_line(#[trigger] lines[i]) is Malformed)
}

/// Line `i`, counted from 0, is the first malformed line.
pub open spec fn is_first_malformed(lines: Seq<Seq<char>>, i: int) -> bool {
    &&& 0 <= i < lines.len()
    &&& read_line(lines[i]) is Malformed
    &&& forall|j: int| 0 <= j < i ==> !(read_line(#[trigger] lines[j]) is Malformed)
}

/// A chord that no binding names is not bound.
pub proof fn lemma_unbound(bindings: Seq<Binding>, chord: Seq<u32>)
    requires
        forall|i: int| 0 <= i < bindings.len() ==> (#[trigger] bindings[i]).chord@ != chord,
    ensures
        !bound_by(bindings).contains_key(chord),
    decreases bindings.len(),
{
    if bindings.len() > 0 {
        let front = bindings.drop_last();
        assert forall|i: int| 0 <= i < front.len() implies (#[trigger] front[i]).chord@ != chord by {
            assert(front[i] == bindings[i]);
        }
        lemma_unbound(front, chord);
    }
}

/// A chord is bound to the command of the last binding that names it.
pub proof fn lemma_bound_to_last(bindings: Seq<Binding>, chord: Seq<u32>, i: int)
    requires
        0 <= i < bindings.len(),
        bindings[i].chord@ == chord,
        forall|j: int| i < j < bindings.len() ==> (#[trigger] bindings[j]).chord@ != chord,
    ensures
        bound_by(bindings).contains_key(chord),
        bound_by(bindings)[chord] == bindings[i].command@,
    decreases bindings.len(),
{
    if i < bindings.len() - 1 {
        let front = bindings.drop_last();
        assert forall|j: int| i < j < front.len() implies (#[trigger] front[j]).chord@ != chord by {
            assert(front[j] == bindings[j]);
        }
        assert(bindings.last() == bindings[bindings.len() - 1]);
        lemma_bound_to_last(front, chord, i);
    }
}

/// Every chord of a table has at least one press.
pub proof fn lemma_chords_have_presses(lines: Seq<Seq<char>>, chord: Seq<u32>)
    requires
        table_of(lines).contains_key(chord),
    ensures
        chord.len() >= 1,
    decreases lines.len(),
{
    if lines.len() > 0 {
        match read_line(lines.last()) {
            Line::Bound { chord: bound, command } => {
                if bound != chord {
                    lemma_chords_have_presses(lines.drop_last(), chord);
                }
            },
            _ => {
                lemma_chords_have_presses(lines.drop_last(), chord);
            },
        }
    }
}

/// Splits a text into its lines.
pub fn split_lines(text: &str) -> (lines: Vec<String>)
    ensures
        texts(lines@) == lines_of(text@),
{
    let chars = chars_of(text);
    let len = chars.len();
    let mut lines: Vec<String> = Vec::new();
    let mut i: usize = 0;
    assert(text@.skip(0) =~= text@);
    assert(texts(lines@) =~= Seq::<Seq<char>>::empty());
    while i < len
        invariant
            i <= len,
            len == chars@.len(),
            chars@ == text@,
            lines_of(text@) == texts(lines@) + lines_of(text@.skip(i as int)),
        decreases len - i,
    {
        let ghost rest = text@.skip(i as int);
        let ghost before = texts(lines@);
        let tail = slice_subrange(chars.as_slice(), i, len);
        assert(tail@ =~= rest);
        let n = find(tail, '\n');
        let j: usize = i + n;
        if j >= len {
            let line = text.substring_char(i, len);
            assert(line@ =~= rest);
            lines.push(String::from_str(line));
            assert(texts(lines@) =~= before.push(rest));
            assert(text@.skip(len as int) =~= Seq::<char>::empty());
            i = len;
        } else {
            let end: usize = if j > i && chars[j - 1] == '\r' {
                j - 1
            } else {
                j
            };
            let line = text.substring_char(i, end);
            assert(line@ =~= without_return(rest.take(n as int)));
            lines.push(String::from_str(line));
            assert(texts(lines@) =~= before.push(without_return(rest.take(n as int))));
            assert(rest.skip(n + 1) =~= text@.skip(j + 1));
            i = j + 1;
        }
    }
    assert(text@.skip(len as int) =~= Seq::<char>::empty());
    lines
}

impl View for CommandTable {
    type V = Map<Seq<u32>, Seq<char>>;

    /// The table as a map from chord to command.
    closed spec fn view(&self) -> Map<Seq<u32>, Seq<char>> {
        bound_by(self.bindings@)
    }
}

impl CommandTable {
    /// Reads a table from its lines. The table is whole or there is none:
    /// the first malformed line fails the reading, and the error names that
    /// line and its first offending token.
    pub fn from_lines(lines: &Vec<String>) -> (r: Result<CommandTable, ConfigError>)
        ensures
            r is Ok <==> readable(texts(lines@)),
            r matches Ok(table) ==> table@ == table_of(texts(lines@)),
            r matches Err(ConfigError::MalformedId { line, token }) ==> is_first_malformed(
                texts(lines@),
                line - 1,
            ) && read_line(lines@[line - 1]@) == (Line::Malformed { token: token@ }),
    {
        let ghost all = texts(lines@);
        let mut bindings: Vec<Binding> = Vec::new();
        let mut i: usize = 0;
        assert(all.take(0) =~= Seq::<Seq<char>>::empty());
        while i < lines.len()
            invariant
                i <= lines.len(),
                all == texts(lines@),
                bound_by(bindings@) == table_of(all.take(i as int)),
                forall|j: int| 0 <= j < i ==> !(read_line(#[trigger] all[j]) is Malformed),
            decreases lines.len() - i,
        {
            proof {
                assert(all.take(i + 1).drop_last() =~= all.take(i as int));
                assert(all.take(i + 1).last() == lines@[i as int]@);
            }
            match parse_line(lines[i].as_str()) {
                Err(token) => {
                    return Err(ConfigError::MalformedId { line: i + 1, token });
                },
                Ok(None) => {},
                Ok(Some(binding)) => {
                    let ghost before = bindings@;
                    bindings.push(binding);
                    assert(bindings@.drop_last() =~= before);
                },
            }
            i = i + 1;
        }
        assert(all.take(i as int) =~= all);
        Ok(CommandTable { bindings })
    }

    /// Reads a table from the text of its file.
    pub fn from_text(text: &str) -> (r: Result<CommandTable, ConfigError>)
        ensures
            r is Ok <==> readable(lines_of(text@)),
            r matches Ok(table) ==> table@ == table_of(lines_of(text@)),
            r matches Err(ConfigError::MalformedId { line, token }) ==> is_first_malformed(
                lines_of(text@),
                line - 1,
            ) && read_line(lines_of(text@)[line - 1]) == (Line::Malformed { token: token@ }),
    {
        let lines = split_lines(text);
        CommandTable::from_lines(&lines)
    }

    /// The command that `chord` launches, if the table binds it.
    pub fn lookup(&self, chord: &[u32]) -> (r: Option<&String>)
        ensures
            r is Some <==> self@.contains_key(chord@),
            r matches Some(command) ==> command@ == self@[chord@],
    {
        let mut i: usize = self.bindings.len();
        while i > 0
            invariant
                i <= self.bindings@.len(),
                forall|j: int|
                    i <= j < self.bindings@.len() ==> (#[trigger] self.bindings@[j]).chord@
                        != chord@,
            decreases i,
        {
            i = i - 1;
            if same_chord(self.bindings[i].chord.as_slice(), chord) {
                proof {
                    lemma_bound_to_last(self.bindings@, chord@, i as int);
                }
                return Some(&self.bindings[i].command);
            }
        }
        proof {
            lemma_unbound(self.bindings@, chord@);
        }
        None
    }
}

} // verus!
