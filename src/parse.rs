//! Reading commands and translating whole programs.
use vstd::prelude::*;
use vstd::string::StrSliceExecFns;
use vstd::string::StringExecFns;
use crate::code::{text, Ins};
use crate::emit::{
    add_code, and, and_code, call, call_code, compare_code, eq, function, function_code,
    goto, goto_code, gt, if_goto, if_goto_code, label, label_code, lt, neg, neg_code, not,
    not_code, or, or_code, pop, pop_code, push, push_code, return_, return_code, return_prefix,
    sub_code, Cmp, ParseError, Segment,
};
use crate::labels::{label_text, LabelAllocator};
use crate::source::{is_space, is_space_exec, lines, split_lines, views};
use crate::text::{chars_of, digit_value, is_digit, push_char, string_of, write_str};

verus! {

/// The largest number operand: the largest constant the machine can load.
pub const MAX_OPERAND: u16 = 32767;

/// The words finished within the first `n` characters of `s`, and the word
/// still open after them.
pub open spec fn scan_words(s: Seq<char>, n: nat) -> (Seq<Seq<char>>, Seq<char>)
    decreases n,
{
    if n == 0 || n > s.len() {
        (Seq::empty(), Seq::empty())
    } else {
        let (done, open) = scan_words(s, (n - 1) as nat);
        if is_space(s[n - 1]) {
            if open.len() > 0 { (done.push(open), Seq::empty()) } else { (done, open) }
        } else {
            (done, open.push(s[n - 1]))
        }
    }
}

/// The maximal runs of non-space characters of `s`, in order.
pub open spec fn words(s: Seq<char>) -> Seq<Seq<char>> {
    let (done, open) = scan_words(s, s.len());
    if open.len() > 0 { done.push(open) } else { done }
}

/// The value of a string of digits.
pub open spec fn digits_value(w: Seq<char>) -> nat
    decreases w.len(),
{
    if w.len() == 0 { 0 } else { digits_value(w.drop_last()) * 10 + digit_value(w.last()) }
}

/// The number that `w` spells: one or more digits, of value at most `MAX_OPERAND`.
pub open spec fn number_of(w: Seq<char>) -> Option<nat> {
    if w.len() > 0 && (forall|i: int| 0 <= i < w.len() ==> is_digit(#[trigger] w[i]))
        && digits_value(w) <= MAX_OPERAND {
        Some(digits_value(w))
    } else {
        None
    }
}

/// The segment that `w` names.
pub open spec fn segment_of(w: Seq<char>) -> Option<Segment> {
    if w == "constant"@ { Some(Segment::Constant) }
    else if w == "local"@ { Some(Segment::Local) }
    else if w == "argument"@ { Some(Segment::Argument) }
    else if w == "this"@ { Some(Segment::This) }
    else if w == "that"@ { Some(Segment::That) }
    else if w == "temp"@ { Some(Segment::Temp) }
    else if w == "pointer"@ { Some(Segment::Pointer) }
    else if w == "static"@ { Some(Segment::Static) }
    else { None }
}

/// The code of a push or pop command with operand words `seg` and `idx`.
pub open spec fn access_code(is_push: bool, seg: Seq<char>, idx: Seq<char>, unit: Seq<char>) -> Result<Seq<Ins>, ParseError> {
    match segment_of(seg) {
        None => Err(ParseError::BadSegment),
        Some(s) => match number_of(idx) {
            None => Err(ParseError::BadNumber),
            Some(i) => if is_push {
                Ok(push_code(s, i, unit))
            } else if s == Segment::Constant {
                Err(ParseError::BadSegment)
            } else {
                Ok(pop_code(s, i, unit))
            },
        },
    }
}

/// The code of the command whose words are `t`, inside function `scope` of
/// translation unit `unit`, when the next fresh label number is `n`.
pub open spec fn command_code(t: Seq<Seq<char>>, unit: Seq<char>, scope: Seq<char>, n: nat) -> Result<Seq<Ins>, ParseError> {
    if t.len() == 0 {
        Err(ParseError::Empty)
    } else {
        let w = t[0];
        if w == "add"@ { Ok(add_code()) }
        else if w == "sub"@ { Ok(sub_code()) }
        else if w == "neg"@ { Ok(neg_code()) }
        else if w == "not"@ { Ok(not_code()) }
        else if w == "and"@ { Ok(and_code()) }
        else if w == "or"@ { Ok(or_code()) }
        else if w == "eq"@ { Ok(compare_code(Cmp::Eq, n)) }
        else if w == "gt"@ { Ok(compare_code(Cmp::Gt, n)) }
        else if w == "lt"@ { Ok(compare_code(Cmp::Lt, n)) }
        else if w == "return"@ { Ok(return_code()) }
        else if w == "push"@ || w == "pop"@ {
            if t.len() < 3 { Err(ParseError::MissingOperand) }
            else { access_code(w == "push"@, t[1], t[2], unit) }
        } else if w == "label"@ || w == "goto"@ || w == "if-goto"@ {
            if t.len() < 2 { Err(ParseError::MissingOperand) }
            else if w == "label"@ { Ok(label_code(t[1])) }
            else if w == "goto"@ { Ok(goto_code(t[1])) }
            else { Ok(if_goto_code(t[1])) }
        } else if w == "call"@ || w == "function"@ {
            if t.len() < 3 { Err(ParseError::MissingOperand) }
            else {
                match number_of(t[2]) {
                    None => Err(ParseError::BadNumber),
                    Some(k) => if w == "call"@ {
                        Ok(call_code(t[1], k, label_text(return_prefix(scope), n)))
                    } else {
                        Ok(function_code(t[1], k))
                    },
                }
            }
        } else {
            Err(ParseError::UnknownCommand)
        }
    }
}

/// How many fresh labels the command whose words are `t` takes.
pub open spec fn labels_used(t: Seq<Seq<char>>) -> nat {
    if t.len() > 0 && (t[0] == "eq"@ || t[0] == "gt"@ || t[0] == "lt"@) {
        2
    } else if t.len() >= 3 && t[0] == "call"@ && number_of(t[2]) is Some {
        1
    } else {
        0
    }
}

/// The function that the commands after `t` stand in.
pub open spec fn next_scope(t: Seq<Seq<char>>, scope: Seq<char>) -> Seq<char> {
    if t.len() >= 3 && t[0] == "function"@ && number_of(t[2]) is Some { t[1] } else { scope }
}


/// The words of `s`, as `words` gives them.
pub fn split_words(s: &[char]) -> (r: Vec<Vec<char>>)
    ensures
        views(r@) == words(s@),
{
    let mut done: Vec<Vec<char>> = Vec::new();
    let mut open: Vec<char> = Vec::new();
    let mut i: usize = 0;
    while i < s.len()
        invariant
            i <= s@.len(),
            (views(done@), open@) == scan_words(s@, i as nat),
        decreases s@.len() - i,
    {
        let c = s[i];
        if is_space_exec(c) {
            if open.len() > 0 {
                done.push(open);
                open = Vec::new();
            }
        } else {
            open.push(c);
        }
        i = i + 1;
        assert(views(done@) =~= scan_words(s@, i as nat).0);
    }
    if open.len() > 0 {
        done.push(open);
    }
    assert(views(done@) =~= words(s@));
    done
}

proof fn lemma_digits_prefix(w: Seq<char>, i: int)
    requires
        0 <= i <= w.len(),
    ensures
        digits_value(w.subrange(0, i)) <= digits_value(w),
    decreases w.len(),
{
    if i == w.len() {
        assert(w.subrange(0, i) =~= w);
    } else {
        lemma_digits_prefix(w.drop_last(), i);
        assert(w.drop_last().subrange(0, i) =~= w.subrange(0, i));
    }
}

/// The number that `w` spells, as `number_of` gives it.
pub fn parse_number(w: &[char]) -> (r: Option<u16>)
    ensures
        r matches Some(v) ==> number_of(w@) == Some(v as nat),
        r is None ==> number_of(w@) is None,
{
    if w.len() == 0 {
        return None;
    }
    let mut v: u32 = 0;
    let mut i: usize = 0;
    while i < w.len()
        invariant
            i <= w@.len(),
            v as nat == digits_value(w@.subrange(0, i as int)),
            v <= MAX_OPERAND,
            forall|j: int| 0 <= j < i ==> is_digit(#[trigger] w@[j]),
        decreases w@.len() - i,
    {
        let c = w[i];
        if !('0' <= c && c <= '9') {
            return None;
        }
        assert(w@.subrange(0, i + 1).drop_last() =~= w@.subrange(0, i as int));
        v = v * 10 + (c as u32 - '0' as u32);
        i = i + 1;
        if v > MAX_OPERAND as u32 {
            proof {
                lemma_digits_prefix(w@, i as int);
            }
            return None;
        }
    }
    assert(w@.subrange(0, i as int) =~= w@);
    Some(v as u16)
}

/// Whether `w` spells exactly `lit`.
pub fn same_word(w: &[char], lit: &str) -> (r: bool)
    ensures
        r == (w@ == lit@),
{
    let n = lit.unicode_len();
    if w.len() != n {
        return false;
    }
    let mut i: usize = 0;
    while i < n
        invariant
            n == w@.len(),
            n == lit@.len(),
            i <= n,
            forall|j: int| 0 <= j < i ==> w@[j] == lit@[j],
        decreases n - i,
    {
        if w[i] != lit.get_char(i) {
            return false;
        }
        i = i + 1;
    }
    assert(w@ =~= lit@);
    true
}

/// The segment that `w` names, as `segment_of` gives it.
pub fn parse_segment(w: &[char]) -> (r: Option<Segment>)
    ensures
        r == segment_of(w@),
{
    if same_word(w, "constant") { Some(Segment::Constant) }
    else if same_word(w, "local") { Some(Segment::Local) }
    else if same_word(w, "argument") { Some(Segment::Argument) }
    else if same_word(w, "this") { Some(Segment::This) }
    else if same_word(w, "that") { Some(Segment::That) }
    else if same_word(w, "temp") { Some(Segment::Temp) }
    else if same_word(w, "pointer") { Some(Segment::Pointer) }
    else if same_word(w, "static") { Some(Segment::Static) }
    else { None }
}

/// The text of a command's code, or its error.
pub open spec fn rendered(r: Result<Seq<Ins>, ParseError>) -> Result<Seq<char>, ParseError> {
    match r {
        Ok(code) => Ok(text(code)),
        Err(e) => Err(e),
    }
}

pub open spec fn result_view(r: Result<String, ParseError>) -> Result<Seq<char>, ParseError> {
    match r {
        Ok(t) => Ok(t@),
        Err(e) => Err(e),
    }
}

/// The state of one translation run: the translation unit (which scopes the
/// static segment), the function being translated (which scopes return
/// labels), and the label allocator.
pub struct Translator {
    pub unit: String,
    pub scope: String,
    pub labels: LabelAllocator,
}

impl Translator {
    /// A fresh run over translation unit `unit`; until a `function` command,
    /// return labels are scoped by the unit.
    pub fn new(unit: &str) -> (r: Translator)
        ensures
            r.unit@ == unit@,
            r.scope@ == unit@,
            r.labels.next_number() == 0,
    {
        Translator { unit: String::from_str(unit), scope: String::from_str(unit), labels: LabelAllocator::new() }
    }
}

fn access(is_push: bool, t: &Vec<Vec<char>>, unit: &str) -> (r: Result<String, ParseError>)
    requires
        t@.len() >= 3,
    ensures
        result_view(r) == rendered(access_code(is_push, t@[1]@, t@[2]@, unit@)),
{
    match parse_segment(t[1].as_slice()) {
        None => Err(ParseError::BadSegment),
        Some(seg) => match parse_number(t[2].as_slice()) {
            None => Err(ParseError::BadNumber),
            Some(i) => if is_push {
                Ok(push(seg, i, unit))
            } else {
                pop(seg, i, unit)
            },
        },
    }
}

/// Translates the command whose words are `t`.
fn translate_words(t: &Vec<Vec<char>>, run: &mut Translator) -> (r: Result<String, ParseError>)
    requires
        old(run).labels.next_number() + 2 <= usize::MAX,
    ensures
        result_view(r) == rendered(
            command_code(views(t@), old(run).unit@, old(run).scope@, old(run).labels.next_number()),
        ),
        final(run).unit@ == old(run).unit@,
        final(run).scope@ == next_scope(views(t@), old(run).scope@),
        final(run).labels.next_number() == old(run).labels.next_number() + labels_used(views(t@)),
{
    let ghost tv = views(t@);
    proof {
        reveal_strlit("add");
        reveal_strlit("sub");
        reveal_strlit("neg");
        reveal_strlit("not");
        reveal_strlit("and");
        reveal_strlit("or");
        reveal_strlit("eq");
        reveal_strlit("gt");
        reveal_strlit("lt");
        reveal_strlit("return");
        reveal_strlit("push");
        reveal_strlit("pop");
        reveal_strlit("label");
        reveal_strlit("goto");
        reveal_strlit("if-goto");
        reveal_strlit("call");
        reveal_strlit("function");
    }
    if t.len() == 0 {
        return Err(ParseError::Empty);
    }
    assert(tv[0] == t@[0]@);
    let w = t[0].as_slice();
    if same_word(w, "add") { Ok(crate::emit::add()) }
    else if same_word(w, "sub") { Ok(crate::emit::sub()) }
    else if same_word(w, "neg") { Ok(neg()) }
    else if same_word(w, "not") { Ok(not()) }
    else if same_word(w, "and") { Ok(and()) }
    else if same_word(w, "or") {
        proof {
            assert("or"@[0] != "eq"@[0] && "or"@[0] != "gt"@[0] && "or"@[0] != "lt"@[0]);
        }
        Ok(or())
    }
    else if same_word(w, "eq") { Ok(eq(&mut run.labels)) }
    else if same_word(w, "gt") { Ok(gt(&mut run.labels)) }
    else if same_word(w, "lt") { Ok(lt(&mut run.labels)) }
    else if same_word(w, "return") { Ok(return_()) }
    else if same_word(w, "push") || same_word(w, "pop") {
        if t.len() < 3 {
            return Err(ParseError::MissingOperand);
        }
        assert(tv[1] == t@[1]@ && tv[2] == t@[2]@);
        proof {
            assert("push"@[0] != "call"@[0]);
        }
        access(same_word(w, "push"), t, run.unit.as_str())
    } else if same_word(w, "label") || same_word(w, "goto") || same_word(w, "if-goto") {
        if t.len() < 2 {
            return Err(ParseError::MissingOperand);
        }
        assert(tv[1] == t@[1]@);
        proof {
            assert("goto"@[0] != "call"@[0]);
        }
        let name = string_of(t[1].as_slice());
        if same_word(w, "label") {
            Ok(label(name.as_str()))
        } else if same_word(w, "goto") {
            Ok(goto(name.as_str()))
        } else {
            Ok(if_goto(name.as_str()))
        }
    } else if same_word(w, "call") || same_word(w, "function") {
        if t.len() < 3 {
            return Err(ParseError::MissingOperand);
        }
        assert(tv[1] == t@[1]@ && tv[2] == t@[2]@);
        match parse_number(t[2].as_slice()) {
            None => Err(ParseError::BadNumber),
            Some(k) => {
                let name = string_of(t[1].as_slice());
                if same_word(w, "call") {
                    Ok(call(run.scope.as_str(), name.as_str(), k, &mut run.labels))
                } else {
                    let code = function(name.as_str(), k);
                    run.scope = name;
                    Ok(code)
                }
            },
        }
    } else {
        Err(ParseError::UnknownCommand)
    }
}

/// Translates one command line of translation run `run`: the code of the
/// command, or why the line is malformed (then `run` is unchanged).
pub fn parse_line(line: &str, run: &mut Translator) -> (r: Result<String, ParseError>)
    requires
        old(run).labels.next_number() + 2 <= usize::MAX,
    ensures
        result_view(r) == rendered(
            command_code(words(line@), old(run).unit@, old(run).scope@, old(run).labels.next_number()),
        ),
        final(run).unit@ == old(run).unit@,
        final(run).scope@ == next_scope(words(line@), old(run).scope@),
        final(run).labels.next_number() == old(run).labels.next_number() + labels_used(words(line@)),
{
    let chars = chars_of(line);
    let t = split_words(chars.as_slice());
    translate_words(&t, run)
}

/// A malformed line: its number (counting from 1) and what is wrong with it.
#[derive(Clone, Copy, PartialEq, Eq, Structural, Debug)]
pub struct Diagnostic {
    pub line: usize,
    pub error: ParseError,
}

/// The result of translating a program: its assembly text and a diagnostic
/// for each malformed line.
pub struct Output {
    pub text: String,
    pub diagnostics: Vec<Diagnostic>,
}

/// What a translation run has produced after some lines, and its state.
pub struct RunModel {
    pub text: Seq<char>,
    pub errors: Seq<(nat, ParseError)>,
    pub scope: Seq<char>,
    pub next: nat,
}

/// The run over the first `k` lines of `ls` in translation unit `unit`: the
/// code of each command line in order, one newline between two lines' code,
/// no code for a malformed line but a diagnostic.
pub open spec fn run_lines(ls: Seq<Seq<char>>, k: nat, unit: Seq<char>) -> RunModel
    decreases k,
{
    if k == 0 || k > ls.len() {
        RunModel { text: Seq::empty(), errors: Seq::empty(), scope: unit, next: 0 }
    } else {
        let p = run_lines(ls, (k - 1) as nat, unit);
        let t = words(ls[k - 1]);
        let r = command_code(t, unit, p.scope, p.next);
        let frag = match r {
            Ok(code) => text(code),
            Err(_) => Seq::empty(),
        };
        RunModel {
            text: if k == 1 { frag } else { p.text.push('\n') + frag },
            errors: match r {
                Ok(_) => p.errors,
                Err(e) => p.errors.push((k, e)),
            },
            scope: next_scope(t, p.scope),
            next: p.next + labels_used(t),
        }
    }
}

/// The translation of program `s` in translation unit `unit`, with a fresh
/// label allocator.
pub open spec fn translation(s: Seq<char>, unit: Seq<char>) -> RunModel {
    run_lines(lines(s), lines(s).len(), unit)
}

pub open spec fn error_list(d: Seq<Diagnostic>) -> Seq<(nat, ParseError)> {
    d.map_values(|x: Diagnostic| (x.line as nat, x.error))
}

/// Translates every line of `file_content`, in translation unit `unit`.
pub fn parse_file(file_content: &str, unit: &str) -> (r: Output)
    requires
        file_content@.len() <= isize::MAX,
    ensures
        r.text@ == translation(file_content@, unit@).text,
        error_list(r.diagnostics@) == translation(file_content@, unit@).errors,
{
    let chars = chars_of(file_content);
    let ls = split_lines(chars.as_slice());
    let ghost lv = views(ls@);
    let mut run = Translator::new(unit);
    let mut out = String::new();
    let mut diags: Vec<Diagnostic> = Vec::new();
    let mut k: usize = 0;
    while k < ls.len()
        invariant
            k <= ls@.len(),
            ls@.len() <= isize::MAX,
            lv == views(ls@),
            lv == lines(file_content@),
            run.unit@ == unit@,
            out@ == run_lines(lv, k as nat, unit@).text,
            error_list(diags@) == run_lines(lv, k as nat, unit@).errors,
            run.scope@ == run_lines(lv, k as nat, unit@).scope,
            run.labels.next_number() == run_lines(lv, k as nat, unit@).next,
            run.labels.next_number() <= 2 * k,
        decreases ls@.len() - k,
    {
        let t = split_words(ls[k].as_slice());
        assert(lv[k as int] == ls@[k as int]@);
        let r = translate_words(&t, &mut run);
        if k > 0 {
            push_char(&mut out, '\n');
        }
        match r {
            Ok(code) => {
                write_str(&mut out, code.as_str());
            },
            Err(e) => {
                diags.push(Diagnostic { line: k + 1, error: e });
            },
        }
        k = k + 1;
        assert(error_list(diags@) =~= run_lines(lv, k as nat, unit@).errors);
        assert(out@ =~= run_lines(lv, k as nat, unit@).text);
    }
    Output { text: out, diagnostics: diags }
}

/// Translating the same program in the same translation unit twice, each run
/// with a fresh label allocator (as `parse_file` makes one), gives the same
/// text and the same diagnostics both times.
pub proof fn lemma_translation_repeatable(
    s: Seq<char>,
    unit: Seq<char>,
    first: Output,
    second: Output,
)
    requires
        first.text@ == translation(s, unit).text,
        error_list(first.diagnostics@) == translation(s, unit).errors,
        second.text@ == translation(s, unit).text,
        error_list(second.diagnostics@) == translation(s, unit).errors,
    ensures
        first.text@ == second.text@,
        first.diagnostics@ == second.diagnostics@,
{
    assert(first.diagnostics@.len() == error_list(first.diagnostics@).len());
    assert forall|i: int| 0 <= i < first.diagnostics@.len() implies first.diagnostics@[i]
        == second.diagnostics@[i] by {
        assert(error_list(first.diagnostics@)[i] == error_list(second.diagnostics@)[i]);
    }
    assert(first.diagnostics@ =~= second.diagnostics@);
}
} // verus!
