//! The text that describes processes, one to a line.

use vstd::prelude::*;
use vstd::std_specs::iter::IteratorSpec;
use crate::process::{Burst, BurstKind, Process, ProcessView};

verus! {

/// The position of the first `c` in `s`, or the length of `s` if there is
/// none.
pub open spec fn find(s: Seq<char>, c: char) -> nat
    decreases s.len(),
{
    if s.len() == 0 || s[0] == c {
        0
    } else {
        1 + find(s.drop_first(), c)
    }
}

/// The pieces of `s` between its occurrences of `c`: one more than there are
/// occurrences, and empty where two of them meet or one stands at an end.
pub open spec fn split(s: Seq<char>, c: char) -> Seq<Seq<char>>
    decreases s.len(),
{
    let i = find(s, c);
    if i >= s.len() {
        seq![s]
    } else {
        seq![s.take(i as int)] + split(s.skip(i as int + 1), c)
    }
}

/// The line without the carriage return at its end, if it has one.
pub open spec fn without_cr(line: Seq<char>) -> Seq<char> {
    if line.len() > 0 && line.last() == '\r' {
        line.drop_last()
    } else {
        line
    }
}

/// The lines of `s`. A line ends with a line feed, which is not part of it,
/// nor is a carriage return before the line feed; the last line may end
/// with the text.
pub open spec fn lines_of(s: Seq<char>) -> Seq<Seq<char>>
    decreases s.len(),
{
    let i = find(s, '\n');
    if s.len() == 0 {
        Seq::empty()
    } else if i >= s.len() {
        seq![s]
    } else {
        seq![without_cr(s.take(i as int))] + lines_of(s.skip(i as int + 1))
    }
}

/// The value of a decimal digit.
pub open spec fn digit_of(c: char) -> nat {
    if '0' <= c <= '9' {
        (c as nat - '0' as nat) as nat
    } else {
        0
    }
}

/// The number that the digits of `s` write in base ten.
pub open spec fn decimal(s: Seq<char>) -> nat
    decreases s.len(),
{
    if s.len() == 0 {
        0
    } else {
        10 * decimal(s.drop_last()) + digit_of(s.last())
    }
}

/// `s` is one decimal digit or more, and nothing else.
pub open spec fn is_number(s: Seq<char>) -> bool {
    &&& s.len() > 0
    &&& forall|i: int| 0 <= i < s.len() ==> '0' <= #[trigger] s[i] <= '9'
}

/// `s` without the sign `sign` at its front, if it has it there.
pub open spec fn unsigned(s: Seq<char>, sign: char) -> Seq<char> {
    if s.len() > 0 && s[0] == sign {
        s.drop_first()
    } else {
        s
    }
}

/// The number that `s` writes, if `s` is a number that a `u32` holds: digits
/// with, at will, a plus sign before them.
pub open spec fn as_u32(s: Seq<char>) -> Option<u32> {
    let digits = unsigned(s, '+');
    if is_number(digits) && decimal(digits) <= u32::MAX {
        Some(decimal(digits) as u32)
    } else {
        None
    }
}

/// The number that `s` writes, if `s` is a number that an `i32` holds:
/// digits with, at will, a plus or a minus sign before them.
pub open spec fn as_i32(s: Seq<char>) -> Option<i32> {
    if s.len() > 0 && s[0] == '-' {
        if is_number(s.drop_first()) && decimal(s.drop_first()) <= -(i32::MIN as int) {
            Some((-(decimal(s.drop_first()) as int)) as i32)
        } else {
            None
        }
    } else {
        let digits = unsigned(s, '+');
        if is_number(digits) && decimal(digits) <= i32::MAX {
            Some(decimal(digits) as i32)
        } else {
            None
        }
    }
}

/// `find` names the first occurrence.
pub proof fn lemma_find(s: Seq<char>, c: char)
    ensures
        find(s, c) <= s.len(),
        forall|j: int| 0 <= j < find(s, c) ==> s[j] != c,
        find(s, c) < s.len() ==> s[find(s, c) as int] == c,
    decreases s.len(),
{
    if s.len() > 0 && s[0] != c {
        let rest = s.drop_first();
        lemma_find(rest, c);
        assert forall|j: int| 0 <= j < find(s, c) implies s[j] != c by {
            if j > 0 {
                assert(rest[j - 1] == s[j]);
            }
        }
    }
}

/// The first occurrence is what `find` names.
pub proof fn lemma_found(s: Seq<char>, c: char, at: int)
    requires
        0 <= at <= s.len(),
        forall|j: int| 0 <= j < at ==> s[j] != c,
        at < s.len() ==> s[at] == c,
    ensures
        find(s, c) == at,
    decreases s.len(),
{
    if s.len() > 0 && s[0] != c {
        let rest = s.drop_first();
        lemma_found(rest, c, at - 1);
    }
}

/// A number with one digit more is ten times the number and the digit, and
/// so no smaller.
pub proof fn lemma_decimal_grows(s: Seq<char>, k: int)
    requires
        0 <= k < s.len(),
    ensures
        decimal(s.take(k + 1)) == 10 * decimal(s.take(k)) + digit_of(s[k]),
        decimal(s.take(k)) <= decimal(s),
    decreases s.len() - k,
{
    assert(s.take(k + 1).drop_last() =~= s.take(k));
    if k + 1 < s.len() {
        lemma_decimal_grows(s, k + 1);
    }
}

/// The position of the first `c` in `chars` from `from` and before `to`, or
/// `to` if there is none.
pub fn find_from(chars: &Vec<char>, from: usize, to: usize, c: char) -> (at: usize)
    requires
        from <= to <= chars.len(),
    ensures
        from <= at <= to,
        at == from + find(chars@.subrange(from as int, to as int), c),
{
    let mut at = from;
    while at < to && chars[at] != c
        invariant
            from <= at <= to <= chars.len(),
            forall|j: int| from <= j < at ==> chars[j] != c,
        decreases to - at,
    {
        at += 1;
    }
    proof {
        lemma_found(chars@.subrange(from as int, to as int), c, at - from);
    }
    at
}

/// The number that the digits from `from` and before `to` write, if there
/// is a digit, nothing but digits, and the number is `limit` at most.
pub fn parse_decimal(chars: &Vec<char>, from: usize, to: usize, limit: u32) -> (value: Option<u32>)
    requires
        from <= to <= chars.len(),
    ensures
        value == (if is_number(chars@.subrange(from as int, to as int)) && decimal(
            chars@.subrange(from as int, to as int),
        ) <= limit {
            Some(decimal(chars@.subrange(from as int, to as int)) as u32)
        } else {
            None
        }),
{
    let ghost s = chars@.subrange(from as int, to as int);
    if from == to {
        return None;
    }
    let mut value: u64 = 0;
    let mut at = from;
    while at < to
        invariant
            from <= at <= to <= chars.len(),
            s == chars@.subrange(from as int, to as int),
            forall|j: int| 0 <= j < at - from ==> '0' <= #[trigger] s[j] <= '9',
            value == decimal(s.take(at - from)),
            value <= limit,
        decreases to - at,
    {
        let c = chars[at];
        assert(c == s[at - from]);
        if !(c >= '0' && c <= '9') {
            return None;
        }
        proof {
            lemma_decimal_grows(s, at - from);
        }
        value = value * 10 + (c as u64 - '0' as u64);
        if value > limit as u64 {
            proof {
                if at + 1 < to {
                    lemma_decimal_grows(s, at - from + 1);
                }
            }
            return None;
        }
        at += 1;
    }
    assert(s.take(at - from) =~= s);
    Some(value as u32)
}

/// The number that the characters from `from` and before `to` write, if
/// they write one that a `u32` holds.
pub fn parse_u32(chars: &Vec<char>, from: usize, to: usize) -> (value: Option<u32>)
    requires
        from <= to <= chars.len(),
    ensures
        value == as_u32(chars@.subrange(from as int, to as int)),
{
    let ghost s = chars@.subrange(from as int, to as int);
    if from < to && chars[from] == '+' {
        assert(s.drop_first() =~= chars@.subrange(from + 1, to as int));
        parse_decimal(chars, from + 1, to, u32::MAX)
    } else {
        parse_decimal(chars, from, to, u32::MAX)
    }
}

/// The number that the characters from `from` and before `to` write, if
/// they write one that an `i32` holds.
pub fn parse_i32(chars: &Vec<char>, from: usize, to: usize) -> (value: Option<i32>)
    requires
        from <= to <= chars.len(),
    ensures
        value == as_i32(chars@.subrange(from as int, to as int)),
{
    let ghost s = chars@.subrange(from as int, to as int);
    if from < to && chars[from] == '-' {
        assert(s.drop_first() =~= chars@.subrange(from + 1, to as int));
        match parse_decimal(chars, from + 1, to, 0x8000_0000) {
            Some(value) => if value == 0x8000_0000 {
                Some(i32::MIN)
            } else {
                Some(-(value as i32))
            },
            None => None,
        }
    } else if from < to && chars[from] == '+' {
        assert(s.drop_first() =~= chars@.subrange(from + 1, to as int));
        match parse_decimal(chars, from + 1, to, 0x7fff_ffff) {
            Some(value) => Some(value as i32),
            None => None,
        }
    } else {
        match parse_decimal(chars, from, to, 0x7fff_ffff) {
            Some(value) => Some(value as i32),
            None => None,
        }
    }
}

/// The characters of `text`, in order.
pub fn chars_of(text: &str) -> (chars: Vec<char>)
    ensures
        chars@ == text@,
{
    broadcast use vstd::string::axiom_spec_iter;
    broadcast use vstd::string::next_postcondition;

    let mut chars: Vec<char> = Vec::new();
    let mut it = text.chars();
    loop
        invariant
            chars@ + it.remaining() == text@,
            it.obeys_prophetic_iter_laws(),
            it.decrease() is Some,
        ensures
            chars@ == text@,
        decreases it.decrease()->0,
    {
        match it.next() {
            Some(c) => {
                chars.push(c);
            },
            None => {
                break;
            },
        }
    }
    chars
}

/// The kind of the burst at position `k` of a process: CPU and IO in turn,
/// CPU first.
pub open spec fn kind_at(k: int) -> BurstKind {
    if k % 2 == 0 {
        BurstKind::Cpu
    } else {
        BurstKind::Io
    }
}

/// The process that `line` describes, if it describes one, as number `index`
/// of the input. A line is a name, an arrival time, a priority and the
/// lengths of the bursts, each set off from the next by one space. The
/// process takes `index` for its pid.
pub open spec fn parsed_line(line: Seq<char>, index: int) -> Option<ProcessView> {
    let fields = split(line, ' ');
    if index <= i32::MAX && fields.len() >= 3 && as_i32(fields[1]) is Some && as_i32(fields[2]) is Some
        && (forall|k: int| 3 <= k < fields.len() ==> as_u32(#[trigger] fields[k]) is Some) {
        Some(
            ProcessView {
                name: fields[0],
                pid: index,
                priority: as_i32(fields[2])->0 as int,
                arrival: as_i32(fields[1])->0 as int,
                bursts: Seq::new(
                    (fields.len() - 3) as nat,
                    |k: int| Burst { kind: kind_at(k), remaining: as_u32(fields[k + 3])->0 },
                ),
            },
        )
    } else {
        None
    }
}

/// A process that a line describes starts with a CPU burst, if it has a
/// burst, and its bursts are of the two kinds in turn.
pub proof fn lemma_parsed_line_alternates(line: Seq<char>, index: int)
    requires
        parsed_line(line, index) is Some,
    ensures
        parsed_line(line, index)->0.alternating(),
        parsed_line(line, index)->0.bursts.len() > 0 ==> parsed_line(line, index)->0.bursts[0].kind
            == BurstKind::Cpu,
        parsed_line(line, index)->0.pid == index,
{
}

/// The processes that the lines of a text describe go by different pids.
pub proof fn lemma_parsed_pids_differ(text: Seq<char>, processes: Seq<ProcessView>)
    requires
        processes.len() == lines_of(text).len(),
        forall|i: int|
            0 <= i < processes.len() ==> parsed_line(#[trigger] lines_of(text)[i], i) == Some(
                processes[i],
            ),
    ensures
        forall|i: int, j: int|
            0 <= i < j < processes.len() ==> (#[trigger] processes[i]).pid != (#[trigger] processes[j]).pid,
{
    assert forall|i: int, j: int| 0 <= i < j < processes.len() implies (#[trigger] processes[i]).pid != (
    #[trigger] processes[j]).pid by {
        assert(parsed_line(lines_of(text)[i], i) == Some(processes[i]));
        assert(parsed_line(lines_of(text)[j], j) == Some(processes[j]));
    }
}

/// The process that the characters of `text` from `from` and before `to`
/// describe, if they describe one.
pub fn parse_line(text: &str, chars: &Vec<char>, from: usize, to: usize, index: usize) -> (process:
    Option<Process>)
    requires
        chars@ == text@,
        from <= to <= chars.len(),
    ensures
        match process {
            Some(process) => parsed_line(chars@.subrange(from as int, to as int), index as int)
                == Some(process@),
            None => parsed_line(chars@.subrange(from as int, to as int), index as int) is None,
        },
{
    let ghost line = chars@.subrange(from as int, to as int);
    let ghost mut fields: Seq<Seq<char>> = Seq::empty();
    let mut stage: u8 = 0;
    let mut start = from;
    let mut name_to = from;
    let mut arrival: i32 = 0;
    let mut priority: i32 = 0;
    let mut bursts: Vec<Burst> = Vec::new();
    let mut kind = BurstKind::Cpu;
    loop
        invariant_except_break
            from <= start <= to,
            split(line, ' ') == fields + split(chars@.subrange(start as int, to as int), ' '),
        invariant
            to <= chars.len(),
            line == chars@.subrange(from as int, to as int),
            from <= name_to <= to,
            stage <= 3,
            stage < 3 ==> fields.len() == stage,
            stage == 3 ==> fields.len() == 3 + bursts.len(),
            stage < 3 ==> bursts.len() == 0,
            fields.len() >= 1 ==> fields[0] == chars@.subrange(from as int, name_to as int),
            fields.len() >= 2 ==> as_i32(fields[1]) == Some(arrival),
            fields.len() >= 3 ==> as_i32(fields[2]) == Some(priority),
            fields.len() == 0 ==> start == from,
            forall|k: int|
                3 <= k < fields.len() ==> as_u32(#[trigger] fields[k]) is Some && bursts[k - 3] == (Burst {
                    kind: kind_at(k - 3),
                    remaining: as_u32(fields[k])->0,
                }),
            kind == kind_at(bursts.len() as int),
        ensures
            split(line, ' ') == fields,
        decreases to - start,
    {
        let end = find_from(chars, start, to, ' ');
        let ghost field = chars@.subrange(start as int, end as int);
        let ghost rest = chars@.subrange(start as int, to as int);
        proof {
            if end < to {
                assert(rest.skip(end - start + 1) =~= chars@.subrange(end + 1, to as int));
            }
            assert(split(line, ' ')[fields.len() as int] == field);
        }
        if stage == 0 {
            name_to = end;
            stage = 1;
        } else if stage == 1 {
            match parse_i32(chars, start, end) {
                Some(value) => {
                    arrival = value;
                },
                None => {
                    return None;
                },
            }
            stage = 2;
        } else if stage == 2 {
            match parse_i32(chars, start, end) {
                Some(value) => {
                    priority = value;
                },
                None => {
                    return None;
                },
            }
            stage = 3;
        } else {
            match parse_u32(chars, start, end) {
                Some(remaining) => {
                    bursts.push(Burst { kind, remaining });
                    kind = kind.other();
                },
                None => {
                    return None;
                },
            }
        }
        proof {
            fields = fields.push(field);
        }
        if end == to {
            break;
        }
        start = end + 1;
    }
    if stage < 3 || index > 0x7fff_ffff {
        return None;
    }
    let name = text.substring_char(from, name_to).to_owned();
    assert(bursts@ =~= parsed_line(line, index as int)->0.bursts);
    Some(Process::new(name, index as i32, priority, bursts, arrival))
}

/// What is wrong with an input: the line with this number, counted from 0,
/// does not describe a process.
#[derive(Debug, Clone, Copy, PartialEq, Eq, Structural)]
pub struct Malformed {
    pub line: usize,
}

/// Reads the processes that `text` describes, one to a line, in the order
/// of the lines. Where a line does not describe a process, the first such
/// line is reported.
pub fn parse_processes(text: &str) -> (result: Result<Vec<Process>, Malformed>)
    ensures
        match result {
            Ok(processes) => {
                &&& processes.len() == lines_of(text@).len()
                &&& forall|i: int|
                    0 <= i < processes.len() ==> parsed_line(#[trigger] lines_of(text@)[i], i) == Some(
                        processes[i]@,
                    )
            },
            Err(error) => {
                &&& error.line < lines_of(text@).len()
                &&& parsed_line(lines_of(text@)[error.line as int], error.line as int) is None
                &&& forall|i: int|
                    0 <= i < error.line ==> parsed_line(#[trigger] lines_of(text@)[i], i) is Some
            },
        },
{
    let chars = chars_of(text);
    let ghost mut lines: Seq<Seq<char>> = Seq::empty();
    let mut processes: Vec<Process> = Vec::new();
    let mut start: usize = 0;
    assert(chars@.subrange(0, chars.len() as int) =~= text@);
    while start < chars.len()
        invariant
            chars@ == text@,
            start <= chars.len(),
            lines_of(text@) == lines + lines_of(chars@.subrange(start as int, chars.len() as int)),
            lines.len() == processes.len(),
            processes.len() <= start,
            forall|i: int|
                0 <= i < processes.len() ==> parsed_line(#[trigger] lines[i], i) == Some(processes[i]@),
        decreases chars.len() - start,
    {
        let feed = find_from(&chars, start, chars.len(), '\n');
        let mut end = feed;
        let ghost rest = chars@.subrange(start as int, chars.len() as int);
        if feed < chars.len() && end > start && chars[end - 1] == '\r' {
            end = end - 1;
        }
        let ghost line = chars@.subrange(start as int, end as int);
        proof {
            if feed < chars.len() {
                assert(rest.skip(feed - start + 1) =~= chars@.subrange(feed + 1, chars.len() as int));
                assert(without_cr(rest.take(feed - start)) =~= line);
            }
        }
        let index = processes.len();
        match parse_line(text, &chars, start, end, index) {
            Some(process) => {
                processes.push(process);
            },
            None => {
                return Err(Malformed { line: index });
            },
        }
        proof {
            lines = lines.push(line);
        }
        start = if feed < chars.len() {
            feed + 1
        } else {
            feed
        };
    }
    Ok(processes)
}

/// `c` is white space: a blank, a tab, a line break or one of the other
/// characters that Unicode counts as such.
pub open spec fn is_space(c: char) -> bool {
    ||| '\u{9}' <= c <= '\u{D}'
    ||| c == ' '
    ||| c == '\u{85}'
    ||| c == '\u{A0}'
    ||| c == '\u{1680}'
    ||| '\u{2000}' <= c <= '\u{200A}'
    ||| c == '\u{2028}'
    ||| c == '\u{2029}'
    ||| c == '\u{202F}'
    ||| c == '\u{205F}'
    ||| c == '\u{3000}'
}

/// `s` without the white space at its front.
pub open spec fn without_leading_space(s: Seq<char>) -> Seq<char>
    decreases s.len(),
{
    if s.len() > 0 && is_space(s[0]) {
        without_leading_space(s.drop_first())
    } else {
        s
    }
}

/// `s` without the white space at its end.
pub open spec fn without_trailing_space(s: Seq<char>) -> Seq<char>
    decreases s.len(),
{
    if s.len() > 0 && is_space(s.last()) {
        without_trailing_space(s.drop_last())
    } else {
        s
    }
}

/// `s` without the white space at its front and at its end.
pub open spec fn trimmed(s: Seq<char>) -> Seq<char> {
    without_trailing_space(without_leading_space(s))
}

/// True when `c` is white space.
pub fn space(c: char) -> (yes: bool)
    ensures
        yes == is_space(c),
{
    (c >= '\u{9}' && c <= '\u{D}') || c == ' ' || c == '\u{85}' || c == '\u{A0}' || c == '\u{1680}' || (c
        >= '\u{2000}' && c <= '\u{200A}') || c == '\u{2028}' || c == '\u{2029}' || c == '\u{202F}' || c
        == '\u{205F}' || c == '\u{3000}'
}

/// Where the characters of `chars` begin and end once the white space at the
/// front and at the end is left out.
pub fn trim_bounds(chars: &Vec<char>) -> (bounds: (usize, usize))
    ensures
        bounds.0 <= bounds.1 <= chars.len(),
        chars@.subrange(bounds.0 as int, bounds.1 as int) == trimmed(chars@),
{
    let mut from: usize = 0;
    assert(chars@.skip(0) =~= chars@);
    while from < chars.len() && space(chars[from])
        invariant
            from <= chars.len(),
            without_leading_space(chars@) == without_leading_space(chars@.skip(from as int)),
        decreases chars.len() - from,
    {
        assert(chars@.skip(from as int).drop_first() =~= chars@.skip(from + 1));
        from += 1;
    }
    let ghost front = chars@.skip(from as int);
    let mut to: usize = chars.len();
    assert(front.take(to - from) =~= front);
    while to > from && space(chars[to - 1])
        invariant
            from <= to <= chars.len(),
            front == chars@.skip(from as int),
            without_trailing_space(front) == without_trailing_space(front.take(to - from)),
        decreases to - from,
    {
        assert(front.take(to - from).drop_last() =~= front.take(to - from - 1));
        to -= 1;
    }
    (from, to)
}

/// The number that a line of input from the user gives, if it gives one: the
/// line may have white space around the number.
pub fn read_number(text: &str) -> (value: Option<i32>)
    ensures
        value == as_i32(trimmed(text@)),
{
    let chars = chars_of(text);
    let (from, to) = trim_bounds(&chars);
    parse_i32(&chars, from, to)
}

/// The name of the file to write the trace to, as a line of input from the
/// user gives it: the line without the white space around it, or no name if
/// nothing is left then.
pub fn read_file_name(text: &str) -> (name: Option<String>)
    ensures
        match name {
            Some(name) => name@ == trimmed(text@) && name@.len() > 0,
            None => trimmed(text@).len() == 0,
        },
{
    let chars = chars_of(text);
    let (from, to) = trim_bounds(&chars);
    if from == to {
        None
    } else {
        Some(text.substring_char(from, to).to_owned())
    }
}

} // verus!
