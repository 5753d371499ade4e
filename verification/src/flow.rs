//! The interactive resolution flow, as an explicit state machine. The
//! surrounding program performs the outside work — printing prompts, reading
//! lines, checking whether a path is a directory, running the scan,
//! persisting the configuration — and feeds each outcome back as an event;
//! every decision about what happens next is made here.

use vstd::prelude::*;

use crate::strutil::yes_answer;
use crate::strutil::is_yes;

verus! {

/// Where the flow stands: which question was asked, or what is awaited.
pub enum FlowState {
    /// Awaiting the answer to "enter the path manually?".
    AskManual,
    /// Awaiting the manually entered path, checked for being a directory.
    AskManualPath,
    /// Awaiting the answer to "perform a full scan?".
    AskScan,
    /// Awaiting the result of the scan.
    Scanning,
    /// Awaiting a numeric choice among these matches.
    AwaitSelection(Vec<String>),
    /// The flow is over.
    Done,
}

/// What the surrounding program reports back to the flow.
pub enum FlowEvent {
    /// A trimmed line read from the interactive input.
    Line(String),
    /// A manually entered path, and whether it is an existing directory.
    DirChecked(String, bool),
    /// The matches the scan produced.
    ScanDone(Vec<String>),
}

/// What the surrounding program is to do next, in order.
pub enum FlowAction {
    /// Write this path to the primary output stream.
    Emit(String),
    /// Add this directory to the configuration and persist it.
    AddAndPersist(String),
    /// Merge these scan results into the configuration, persist it, and
    /// report the new matches on the status stream.
    MergeAndPersist(Vec<String>),
    /// Run the full scan and report back with `ScanDone`.
    RunScan,
    /// Report an invalid manually entered path on the status stream.
    ReportInvalidPath,
    /// Report an invalid numeric choice on the status stream.
    ReportInvalidChoice,
    /// Report that the scan found nothing on the status stream.
    ReportNoScanMatches,
}

/// Whether `c` is a decimal digit.
pub open spec fn is_digit(c: char) -> bool {
    ('0' as u32) <= (c as u32) <= ('9' as u32)
}

/// The value of a digit string, most significant digit first.
pub open spec fn dec_value(s: Seq<char>) -> int
    decreases s.len(),
{
    if s.len() == 0 {
        0
    } else {
        dec_value(s.drop_last()) * 10 + ((s.last() as u32) - ('0' as u32))
    }
}

/// Every character is a decimal digit.
pub open spec fn all_digits(s: Seq<char>) -> bool {
    forall|i: int| 0 <= i < s.len() ==> is_digit(s[i])
}

/// The digit part of a numeral: an optional leading plus sign is dropped.
pub open spec fn digits_of(s: Seq<char>) -> Seq<char> {
    if s.len() > 0 && s[0] == '+' {
        s.drop_first()
    } else {
        s
    }
}

/// The number a selection line stands for: its value when it is a numeral
/// whose value fits the machine, and zero for anything else — exactly how a
/// failed parse is treated, as choice zero, which is never a valid selection.
pub open spec fn selection_value(s: Seq<char>) -> int {
    let d = digits_of(s);
    if d.len() > 0 && all_digits(d) && dec_value(d) <= usize::MAX {
        dec_value(d)
    } else {
        0
    }
}

proof fn lemma_dec_value_nonneg(s: Seq<char>)
    requires
        all_digits(s),
    ensures
        dec_value(s) >= 0,
    decreases s.len(),
{
    if s.len() > 0 {
        assert(all_digits(s.drop_last())) by {
            assert(forall|i: int|
                0 <= i < s.drop_last().len() ==> s.drop_last()[i] == s[i] && is_digit(s[i]));
        }
        lemma_dec_value_nonneg(s.drop_last());
        assert(is_digit(s.last()));
    }
}

proof fn lemma_dec_value_mono(s: Seq<char>, i: int, j: int)
    requires
        all_digits(s),
        0 <= i <= j <= s.len(),
    ensures
        dec_value(s.take(j)) >= dec_value(s.take(i)),
    decreases j - i,
{
    if j > i {
        lemma_dec_value_mono(s, i, j - 1);
        let t = s.take(j);
        assert(t.drop_last() =~= s.take(j - 1));
        assert(t.last() == s[j - 1]);
        assert(all_digits(s.take(j - 1))) by {
            assert(forall|k: int|
                0 <= k < j - 1 ==> s.take(j - 1)[k] == s[k] && is_digit(s[k]));
        }
        lemma_dec_value_nonneg(s.take(j - 1));
        assert(is_digit(s[j - 1]));
    }
}

/// Parses a selection line: a decimal numeral (optionally signed with a
/// plus) gives its value; anything else — empty input, other characters, a
/// value too large for the machine — gives zero, which is never a valid
/// choice.
pub fn parse_selection(line: &str) -> (r: usize)
    ensures
        r as int == selection_value(line@),
{
    let len = line.unicode_len();
    let mut start: usize = 0;
    if len > 0 && line.get_char(0) == '+' {
        start = 1;
    }
    let ghost d = digits_of(line@);
    proof {
        assert(d =~= line@.subrange(start as int, len as int));
    }
    if start >= len {
        return 0;
    }
    let mut acc: usize = 0;
    let mut i: usize = start;
    while i < len
        invariant
            len == line@.len(),
            start <= i <= len,
            start < len,
            d == digits_of(line@),
            d == line@.subrange(start as int, len as int),
            forall|k: int| 0 <= k < i - start ==> is_digit(d[k]),
            acc as int == dec_value(d.take(i - start)),
        decreases len - i,
    {
        let c = line.get_char(i);
        if (c as u32) < ('0' as u32) || (c as u32) > ('9' as u32) {
            proof {
                assert(d[i - start] == line@[i as int]);
                assert(!is_digit(d[i - start]));
                assert(!all_digits(d));
            }
            return 0;
        }
        let dv = ((c as u32) - ('0' as u32)) as usize;
        proof {
            let t1 = d.take(i - start + 1);
            assert(t1.drop_last() =~= d.take(i - start));
            assert(t1.last() == line@[i as int]);
        }
        if acc > (usize::MAX - dv) / 10 {
            proof {
                assert(dec_value(d.take(i - start + 1)) > usize::MAX);
                if all_digits(d) {
                    lemma_dec_value_mono(d, i - start + 1, d.len() as int);
                    assert(d.take(d.len() as int) =~= d);
                }
            }
            return 0;
        }
        acc = acc * 10 + dv;
        i = i + 1;
    }
    proof {
        assert(d.take(d.len() as int) =~= d);
        assert(all_digits(d));
    }
    acc
}

/// The character of a single decimal digit.
pub open spec fn digit_char(d: int) -> char {
    if d == 0 {
        '0'
    } else if d == 1 {
        '1'
    } else if d == 2 {
        '2'
    } else if d == 3 {
        '3'
    } else if d == 4 {
        '4'
    } else if d == 5 {
        '5'
    } else if d == 6 {
        '6'
    } else if d == 7 {
        '7'
    } else if d == 8 {
        '8'
    } else {
        '9'
    }
}

/// The decimal numeral of a non-negative number, most significant digit
/// first, without leading zeros (zero itself is a single digit).
pub open spec fn dec_digits(n: int) -> Seq<char>
    decreases n,
{
    if n < 10 {
        seq![digit_char(n)]
    } else {
        dec_digits(n / 10).push(digit_char(n % 10))
    }
}

fn digit_str(d: usize) -> (s: &'static str)
    requires
        d < 10,
    ensures
        s@ == seq![digit_char(d as int)],
{
    let s: &'static str = match d {
        0 => "0",
        1 => "1",
        2 => "2",
        3 => "3",
        4 => "4",
        5 => "5",
        6 => "6",
        7 => "7",
        8 => "8",
        _ => "9",
    };
    proof {
        reveal_strlit("0");
        reveal_strlit("1");
        reveal_strlit("2");
        reveal_strlit("3");
        reveal_strlit("4");
        reveal_strlit("5");
        reveal_strlit("6");
        reveal_strlit("7");
        reveal_strlit("8");
        reveal_strlit("9");
        assert(s@ =~= seq![digit_char(d as int)]);
    }
    s
}

/// The reversed digit characters of a digit stack.
pub open spec fn rev_chars(stack: Seq<usize>) -> Seq<char>
    decreases stack.len(),
{
    if stack.len() == 0 {
        Seq::empty()
    } else {
        seq![digit_char(stack.last() as int)] + rev_chars(stack.drop_last())
    }
}

proof fn lemma_rev_chars_index(stack: Seq<usize>, j: int)
    requires
        0 <= j < stack.len(),
    ensures
        rev_chars(stack).len() == stack.len(),
        rev_chars(stack)[j] == digit_char(stack[stack.len() - 1 - j] as int),
    decreases stack.len(),
{
    if j > 0 {
        lemma_rev_chars_index(stack.drop_last(), j - 1);
    } else if stack.len() > 1 {
        lemma_rev_chars_index(stack.drop_last(), 0);
    } else {
        assert(rev_chars(stack.drop_last()) =~= Seq::<char>::empty());
    }
}

/// Writes a number as its decimal numeral.
pub fn usize_to_string(n: usize) -> (r: String)
    ensures
        r@ == dec_digits(n as int),
{
    let mut stack: Vec<usize> = Vec::new();
    let mut m = n;
    loop
        invariant_except_break
            (if m > 0 {
                dec_digits(m as int) + rev_chars(stack@)
            } else if stack@.len() > 0 {
                rev_chars(stack@)
            } else {
                dec_digits(0)
            }) =~= dec_digits(n as int),
            m > 0 || stack@.len() == 0,
            forall|k: int| 0 <= k < stack@.len() ==> stack@[k] < 10,
        ensures
            rev_chars(stack@) =~= dec_digits(n as int),
            stack@.len() > 0,
            forall|k: int| 0 <= k < stack@.len() ==> stack@[k] < 10,
        decreases m,
    {
        let d = m % 10;
        let ghost stack0 = stack@;
        let ghost m0 = m as int;
        stack.push(d);
        proof {
            assert(stack@.drop_last() =~= stack0);
            assert(rev_chars(stack@) =~= seq![digit_char(d as int)] + rev_chars(stack0));
            if m0 >= 10 {
                assert(dec_digits(m0) == dec_digits(m0 / 10).push(digit_char(m0 % 10)));
                assert(dec_digits(m0 / 10) + rev_chars(stack@) =~= dec_digits(m0) + rev_chars(
                    stack0,
                ));
            } else {
                assert(dec_digits(m0) =~= seq![digit_char(d as int)]);
                assert(rev_chars(stack@) =~= dec_digits(m0) + rev_chars(stack0));
            }
        }
        m = m / 10;
        if m == 0 {
            proof {
                if stack0.len() == 0 {
                    assert(rev_chars(stack0) =~= Seq::<char>::empty());
                }
                assert(rev_chars(stack@) =~= dec_digits(n as int));
            }
            break;
        }
    }
    let mut r = String::new();
    let mut i = stack.len();
    while i > 0
        invariant
            i <= stack@.len(),
            stack@.len() > 0,
            rev_chars(stack@) =~= dec_digits(n as int),
            forall|k: int| 0 <= k < stack@.len() ==> stack@[k] < 10,
            r@ =~= dec_digits(n as int).take(stack@.len() - i),
        decreases i,
    {
        i = i - 1;
        let ghost r0 = r@;
        r.append(digit_str(stack[i]));
        proof {
            lemma_rev_chars_index(stack@, stack@.len() - 1 - i);
            assert(dec_digits(n as int)[stack@.len() - 1 - i] == digit_char(
                stack@[i as int] as int,
            ));
            assert(r@ =~= dec_digits(n as int).take(stack@.len() - i));
        }
    }
    proof {
        lemma_rev_chars_index(stack@, 0);
        assert(dec_digits(n as int).take(stack@.len() as int) =~= dec_digits(n as int));
    }
    r
}

/// One line of the disambiguation listing: the number of the match, a
/// separating colon, and the path.
pub fn numbered_label(n: usize, path: &str) -> (r: String)
    ensures
        r@ == dec_digits(n as int) + ": "@ + path@,
{
    let mut r = usize_to_string(n);
    r.append(": ");
    r.append(path);
    r
}

/// Which events a state can take; any other pairing ends the flow.
pub open spec fn event_fits(state: &FlowState, event: &FlowEvent) -> bool {
    ||| state is AskManual && event is Line
    ||| state is AskManualPath && event is DirChecked
    ||| state is AskScan && event is Line
    ||| state is Scanning && event is ScanDone
    ||| state is AwaitSelection && event is Line
}

/// The entry of the flow, after the pattern was matched against the stored
/// directories: one match is emitted at once; several ask for a numeric
/// choice; none starts the interactive fallback.
pub fn on_matches(matches: Vec<String>) -> (r: (FlowState, Option<FlowAction>))
    ensures
        matches@.len() == 0 ==> r.0 is AskManual && r.1 is None,
        matches@.len() == 1 ==> r.0 is Done && (r.1 matches Some(a) && a matches FlowAction::Emit(p)
            && p@ == matches@[0]@),
        matches@.len() > 1 ==> (r.0 matches FlowState::AwaitSelection(ms) && ms@ == matches@)
            && r.1 is None,
{
    if matches.len() == 0 {
        (FlowState::AskManual, None)
    } else if matches.len() == 1 {
        let p = matches[0].clone();
        (FlowState::Done, Some(FlowAction::Emit(p)))
    } else {
        (FlowState::AwaitSelection(matches), None)
    }
}

/// One step of the flow: the answer to the pending question decides the next
/// state and the actions the surrounding program performs, exactly as listed
/// in the contract, one transition per state/event pairing.
pub fn flow_step(state: FlowState, event: FlowEvent) -> (r: (FlowState, Vec<FlowAction>))
    ensures
        state is AskManual ==> (event matches FlowEvent::Line(l) ==> (if yes_answer(l@) {
            r.0 is AskManualPath && r.1@.len() == 0
        } else {
            r.0 is AskScan && r.1@.len() == 0
        })),
        state is AskManualPath ==> (event matches FlowEvent::DirChecked(p, ok) ==> (if ok {
            r.0 is Done && r.1@.len() == 2 && (r.1@[0] matches FlowAction::AddAndPersist(q) && q@
                == p@) && (r.1@[1] matches FlowAction::Emit(q) && q@ == p@)
        } else {
            r.0 is AskScan && r.1@.len() == 1 && r.1@[0] is ReportInvalidPath
        })),
        state is AskScan ==> (event matches FlowEvent::Line(l) ==> (if yes_answer(l@) {
            r.0 is Scanning && r.1@.len() == 1 && r.1@[0] is RunScan
        } else {
            r.0 is Done && r.1@.len() == 0
        })),
        state is Scanning ==> (event matches FlowEvent::ScanDone(ms) ==> (if ms@.len() == 0 {
            r.0 is Done && r.1@.len() == 1 && r.1@[0] is ReportNoScanMatches
        } else if ms@.len() == 1 {
            r.0 is Done && r.1@.len() == 2 && (r.1@[0] matches FlowAction::MergeAndPersist(v) && v@
                == ms@) && (r.1@[1] matches FlowAction::Emit(q) && q@ == ms@[0]@)
        } else {
            r.0 is Done && r.1@.len() == 1 && (r.1@[0] matches FlowAction::MergeAndPersist(v) && v@
                == ms@)
        })),
        state matches FlowState::AwaitSelection(ms) ==> (event matches FlowEvent::Line(l) ==> ({
            let c = selection_value(l@);
            if 1 <= c <= ms@.len() {
                r.0 is Done && r.1@.len() == 1 && (r.1@[0] matches FlowAction::Emit(q) && q@
                    == ms@[c - 1]@)
            } else {
                r.0 is Done && r.1@.len() == 1 && r.1@[0] is ReportInvalidChoice
            }
        })),
        !event_fits(&state, &event) ==> r.0 is Done && r.1@.len() == 0,
{
    match (state, event) {
        (FlowState::AskManual, FlowEvent::Line(l)) => {
            if is_yes(l.as_str()) {
                (FlowState::AskManualPath, Vec::new())
            } else {
                (FlowState::AskScan, Vec::new())
            }
        },
        (FlowState::AskManualPath, FlowEvent::DirChecked(p, ok)) => {
            if ok {
                let mut actions: Vec<FlowAction> = Vec::new();
                actions.push(FlowAction::AddAndPersist(p.clone()));
                actions.push(FlowAction::Emit(p));
                (FlowState::Done, actions)
            } else {
                let mut actions: Vec<FlowAction> = Vec::new();
                actions.push(FlowAction::ReportInvalidPath);
                (FlowState::AskScan, actions)
            }
        },
        (FlowState::AskScan, FlowEvent::Line(l)) => {
            if is_yes(l.as_str()) {
                let mut actions: Vec<FlowAction> = Vec::new();
                actions.push(FlowAction::RunScan);
                (FlowState::Scanning, actions)
            } else {
                (FlowState::Done, Vec::new())
            }
        },
        (FlowState::Scanning, FlowEvent::ScanDone(ms)) => {
            let mut actions: Vec<FlowAction> = Vec::new();
            if ms.len() == 0 {
                actions.push(FlowAction::ReportNoScanMatches);
            } else if ms.len() == 1 {
                let single = ms[0].clone();
                actions.push(FlowAction::MergeAndPersist(ms));
                actions.push(FlowAction::Emit(single));
            } else {
                actions.push(FlowAction::MergeAndPersist(ms));
            }
            (FlowState::Done, actions)
        },
        (FlowState::AwaitSelection(ms), FlowEvent::Line(l)) => {
            let c = parse_selection(l.as_str());
            let mut actions: Vec<FlowAction> = Vec::new();
            if 1 <= c && c <= ms.len() {
                actions.push(FlowAction::Emit(ms[c - 1].clone()));
            } else {
                actions.push(FlowAction::ReportInvalidChoice);
            }
            (FlowState::Done, actions)
        },
        (_, _) => (FlowState::Done, Vec::new()),
    }
}

} // verus!
