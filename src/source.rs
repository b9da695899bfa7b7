//! Reading program text: splitting into lines and removing comments and blanks.
use vstd::prelude::*;
use crate::text::{chars_of, push_char, write_range};

verus! {

/// A white-space character, as Unicode defines them.
pub open spec fn is_space(c: char) -> bool {
    ('\u{9}' <= c && c <= '\u{d}') || c == ' ' || c == '\u{85}' || c == '\u{a0}'
        || c == '\u{1680}' || ('\u{2000}' <= c && c <= '\u{200a}') || c == '\u{2028}'
        || c == '\u{2029}' || c == '\u{202f}' || c == '\u{205f}' || c == '\u{3000}'
}

pub fn is_space_exec(c: char) -> (r: bool)
    ensures
        r == is_space(c),
{
    ('\u{9}' <= c && c <= '\u{d}') || c == ' ' || c == '\u{85}' || c == '\u{a0}'
        || c == '\u{1680}' || ('\u{2000}' <= c && c <= '\u{200a}') || c == '\u{2028}'
        || c == '\u{2029}' || c == '\u{202f}' || c == '\u{205f}' || c == '\u{3000}'
}

/// A line as read: a carriage return before its newline is not part of it.
pub open spec fn strip_cr(l: Seq<char>) -> Seq<char> {
    if l.len() > 0 && l.last() == '\r' { l.drop_last() } else { l }
}

/// The lines finished within the first `n` characters of `s`, and the line
/// still open after them.
pub open spec fn scan_lines(s: Seq<char>, n: nat) -> (Seq<Seq<char>>, Seq<char>)
    decreases n,
{
    if n == 0 || n > s.len() {
        (Seq::empty(), Seq::empty())
    } else {
        let (done, open) = scan_lines(s, (n - 1) as nat);
        if s[n - 1] == '\n' {
            (done.push(strip_cr(open)), Seq::empty())
        } else {
            (done, open.push(s[n - 1]))
        }
    }
}

/// The lines of `s`: split at each newline; a last line without a newline
/// counts if it is not empty.
pub open spec fn lines(s: Seq<char>) -> Seq<Seq<char>> {
    let (done, open) = scan_lines(s, s.len());
    if open.len() > 0 { done.push(open) } else { done }
}

pub open spec fn views(v: Seq<Vec<char>>) -> Seq<Seq<char>> {
    v.map_values(|l: Vec<char>| l@)
}

/// The lines of `s`, as `lines` gives them.
pub fn split_lines(s: &[char]) -> (r: Vec<Vec<char>>)
    ensures
        views(r@) == lines(s@),
        r@.len() <= s@.len(),
{
    let mut done: Vec<Vec<char>> = Vec::new();
    let mut open: Vec<char> = Vec::new();
    let mut i: usize = 0;
    while i < s.len()
        invariant
            i <= s@.len(),
            (views(done@), open@) == scan_lines(s@, i as nat),
            done@.len() + (if open@.len() > 0 { 1nat } else { 0nat }) <= i,
        decreases s@.len() - i,
    {
        let c = s[i];
        if c == '\n' {
            let mut l = open;
            if l.len() > 0 && l[l.len() - 1] == '\r' {
                l.pop();
            }
            assert(l@ == strip_cr(open@)) by {
                if open@.len() > 0 && open@.last() == '\r' {
                    assert(l@ =~= open@.drop_last());
                }
            }
            done.push(l);
            open = Vec::new();
            assert(views(done@) =~= scan_lines(s@, (i + 1) as nat).0);
        } else {
            open.push(c);
            assert(views(done@) =~= scan_lines(s@, (i + 1) as nat).0);
        }
        i = i + 1;
    }
    if open.len() > 0 {
        done.push(open);
    }
    assert(views(done@) =~= lines(s@));
    done
}

/// `s` without white space at its start.
pub open spec fn trim_front(s: Seq<char>) -> Seq<char>
    decreases s.len(),
{
    if s.len() > 0 && is_space(s[0]) { trim_front(s.drop_first()) } else { s }
}

/// `s` without white space at its end.
pub open spec fn trim_back(s: Seq<char>) -> Seq<char>
    decreases s.len(),
{
    if s.len() > 0 && is_space(s.last()) { trim_back(s.drop_last()) } else { s }
}

pub open spec fn trim(s: Seq<char>) -> Seq<char> {
    trim_back(trim_front(s))
}

/// Where the first `//` of `s` at or after `i` begins; the length of `s` if none does.
pub open spec fn comment_start(s: Seq<char>, i: nat) -> nat
    decreases s.len() - i,
{
    if i + 1 >= s.len() {
        s.len()
    } else if s[i as int] == '/' && s[i + 1 as int] == '/' {
        i
    } else {
        comment_start(s, i + 1)
    }
}

/// What a line leaves in the cleaned program: the trimmed line cut before its
/// first `//` and trimmed again, and a newline; nothing if that is empty (a
/// blank line, or one that holds only a comment).
pub open spec fn cleaned(l: Seq<char>) -> Seq<char> {
    let t = trim(l);
    let code = trim_back(t.subrange(0, comment_start(t, 0) as int));
    if code.len() == 0 { Seq::empty() } else { code.push('\n') }
}

/// The cleaned text of the first `k` lines.
pub open spec fn cleaned_lines(ls: Seq<Seq<char>>, k: nat) -> Seq<char>
    decreases k,
{
    if k == 0 || k > ls.len() {
        Seq::empty()
    } else {
        cleaned_lines(ls, (k - 1) as nat) + cleaned(ls[k - 1])
    }
}

pub open spec fn sanitized(s: Seq<char>) -> Seq<char> {
    cleaned_lines(lines(s), lines(s).len())
}

/// The bounds of `trim(l)` within `l`.
fn trim_bounds(l: &[char]) -> (r: (usize, usize))
    ensures
        r.0 <= r.1 <= l@.len(),
        trim(l@) == l@.subrange(r.0 as int, r.1 as int),
{
    let mut a: usize = 0;
    assert(l@.subrange(0, l@.len() as int) =~= l@);
    while a < l.len() && is_space_exec(l[a])
        invariant
            a <= l@.len(),
            trim_front(l@) == trim_front(l@.subrange(a as int, l@.len() as int)),
        decreases l@.len() - a,
    {
        assert(l@.subrange(a as int, l@.len() as int).drop_first()
            =~= l@.subrange(a + 1, l@.len() as int));
        a = a + 1;
    }
    assert(trim_front(l@) =~= l@.subrange(a as int, l@.len() as int));
    let mut b: usize = l.len();
    while b > a && is_space_exec(l[b - 1])
        invariant
            a <= b <= l@.len(),
            trim(l@) == trim_back(l@.subrange(a as int, b as int)),
        decreases b,
    {
        assert(l@.subrange(a as int, b as int).drop_last() =~= l@.subrange(a as int, b - 1));
        b = b - 1;
    }
    (a, b)
}

/// Where the first `//` of `t` begins; the length of `t` if none does.
fn find_comment(t: &[char], from: usize, to: usize) -> (r: usize)
    requires
        from <= to <= t@.len(),
    ensures
        r <= to - from,
        r as nat == comment_start(t@.subrange(from as int, to as int), 0),
{
    let ghost u = t@.subrange(from as int, to as int);
    let mut i: usize = from;
    while to - i > 1 && !(t[i] == '/' && t[i + 1] == '/')
        invariant
            from <= i <= to,
            to <= t@.len(),
            u == t@.subrange(from as int, to as int),
            comment_start(u, 0) == comment_start(u, (i - from) as nat),
        decreases to - i,
    {
        i = i + 1;
    }
    if to - i > 1 { i - from } else { to - from }
}

/// The program text with comments, blank lines and surrounding white space removed:
/// each line that holds code, up to its first `//`, trimmed at both ends,
/// followed by a newline.
pub fn sanitize(file_content: &str) -> (r: String)
    ensures
        r@ == sanitized(file_content@),
{
    let chars = chars_of(file_content);
    let ls = split_lines(chars.as_slice());
    let mut out = String::new();
    let mut k: usize = 0;
    while k < ls.len()
        invariant
            k <= ls@.len(),
            views(ls@) == lines(file_content@),
            out@ == cleaned_lines(views(ls@), k as nat),
        decreases ls@.len() - k,
    {
        let l = ls[k].as_slice();
        let (a, b) = trim_bounds(l);
        let p = find_comment(l, a, b);
        assert(views(ls@)[k as int] == ls@[k as int]@);
        assert(l@.subrange(a as int, b as int).subrange(0, p as int) =~= l@.subrange(
            a as int,
            (a + p) as int,
        ));
        let mut e: usize = a + p;
        while e > a && is_space_exec(l[e - 1])
            invariant
                a <= e <= a + p <= l@.len(),
                trim_back(l@.subrange(a as int, (a + p) as int)) == trim_back(
                    l@.subrange(a as int, e as int),
                ),
            decreases e,
        {
            assert(l@.subrange(a as int, e as int).drop_last() =~= l@.subrange(
                a as int,
                e - 1,
            ));
            e = e - 1;
        }
        assert(trim_back(l@.subrange(a as int, e as int)) =~= l@.subrange(a as int, e as int));
        if e > a {
            write_range(&mut out, l, a, e);
            push_char(&mut out, '\n');
        }
        k = k + 1;
        assert(out@ =~= cleaned_lines(views(ls@), k as nat));
    }
    out
}


proof fn lemma_trim_front(s: Seq<char>)
    ensures
        trim_front(s).len() <= s.len(),
        trim_front(s) == s.subrange(s.len() - trim_front(s).len(), s.len() as int),
        trim_front(s).len() > 0 ==> !is_space(trim_front(s)[0]),
    decreases s.len(),
{
    if s.len() > 0 && is_space(s[0]) {
        lemma_trim_front(s.drop_first());
        assert(s.drop_first().subrange(
            s.drop_first().len() - trim_front(s).len(),
            s.drop_first().len() as int,
        ) =~= s.subrange(s.len() - trim_front(s).len(), s.len() as int));
    } else {
        assert(s.subrange(0, s.len() as int) =~= s);
    }
}

proof fn lemma_trim_back(s: Seq<char>)
    ensures
        trim_back(s).len() <= s.len(),
        trim_back(s) == s.subrange(0, trim_back(s).len() as int),
        trim_back(s).len() > 0 ==> !is_space(trim_back(s).last()),
    decreases s.len(),
{
    if s.len() > 0 && is_space(s.last()) {
        lemma_trim_back(s.drop_last());
        assert(s.drop_last().subrange(0, trim_back(s).len() as int) =~= s.subrange(
            0,
            trim_back(s).len() as int,
        ));
    } else {
        assert(s.subrange(0, s.len() as int) =~= s);
    }
}

proof fn lemma_comment_start(s: Seq<char>, i: nat)
    requires
        i <= s.len(),
    ensures
        i <= comment_start(s, i) <= s.len(),
        forall|j: int| i <= j < comment_start(s, i) && j + 1 < s.len() ==> !(#[trigger] s[j] == '/'
            && s[j + 1] == '/'),
    decreases s.len() - i,
{
    if i + 1 < s.len() && !(s[i as int] == '/' && s[i + 1 as int] == '/') {
        lemma_comment_start(s, i + 1);
    }
}

/// Each line that cleaning keeps is not empty, starts and ends with a
/// character that is not white space, holds no `//`, and is followed by a
/// newline.
pub proof fn lemma_cleaned_is_trimmed(l: Seq<char>)
    ensures
        ({
            let c = cleaned(l);
            c.len() > 0 ==> {
                let code = c.drop_last();
                &&& c.last() == '\n'
                &&& code.len() > 0
                &&& !is_space(code[0])
                &&& !is_space(code.last())
                &&& forall|j: int| 0 <= j < code.len() - 1 ==> !(#[trigger] code[j] == '/' && code[j + 1] == '/')
            }
        }),
{
    let f = trim_front(l);
    let t = trim(l);
    let p = comment_start(t, 0);
    let cut = t.subrange(0, p as int);
    let code = trim_back(cut);
    lemma_trim_front(l);
    lemma_trim_back(f);
    lemma_comment_start(t, 0);
    lemma_trim_back(cut);
    if code.len() > 0 {
        assert(cleaned(l).drop_last() =~= code);
        assert(code[0] == t[0]);
        assert(t[0] == f[0]);
        assert forall|j: int| 0 <= j < code.len() - 1 implies !(#[trigger] code[j] == '/' && code[j + 1] == '/') by {
            assert(code[j] == t[j]);
            assert(code[j + 1] == t[j + 1]);
        }
    }
}

proof fn lemma_scan_lines_prefix(a: Seq<char>, b: Seq<char>, n: nat)
    requires
        n <= a.len(),
        n <= b.len(),
        a.subrange(0, n as int) == b.subrange(0, n as int),
    ensures
        scan_lines(a, n) == scan_lines(b, n),
    decreases n,
{
    if n > 0 {
        assert(a[n - 1] == a.subrange(0, n as int)[n - 1]);
        assert(b[n - 1] == b.subrange(0, n as int)[n - 1]);
        assert(a.subrange(0, n - 1) =~= a.subrange(0, n as int).subrange(0, n - 1));
        assert(b.subrange(0, n - 1) =~= b.subrange(0, n as int).subrange(0, n - 1));
        lemma_scan_lines_prefix(a, b, (n - 1) as nat);
    }
}

pub open spec fn no_newline(s: Seq<char>) -> bool {
    forall|i: int| 0 <= i < s.len() ==> #[trigger] s[i] != '\n'
}

proof fn lemma_scan_lines_no_newline(s: Seq<char>, n: nat)
    requires
        n <= s.len(),
    ensures
        forall|i: int| 0 <= i < scan_lines(s, n).0.len() ==> no_newline(#[trigger] scan_lines(s, n).0[i]),
        no_newline(scan_lines(s, n).1),
    decreases n,
{
    if n > 0 {
        lemma_scan_lines_no_newline(s, (n - 1) as nat);
        let (done, open) = scan_lines(s, (n - 1) as nat);
        if s[n - 1] == '\n' {
            assert(no_newline(strip_cr(open)));
            assert forall|i: int| 0 <= i < done.push(strip_cr(open)).len() implies no_newline(
                #[trigger] done.push(strip_cr(open))[i],
            ) by {
                if i < done.len() {
                    assert(done.push(strip_cr(open))[i] == done[i]);
                }
            }
        } else {
            assert(no_newline(open.push(s[n - 1])));
        }
    }
}

proof fn lemma_lines_no_newline(s: Seq<char>)
    ensures
        forall|i: int| 0 <= i < lines(s).len() ==> no_newline(#[trigger] lines(s)[i]),
{
    lemma_scan_lines_no_newline(s, s.len());
    let (done, open) = scan_lines(s, s.len());
    if open.len() > 0 {
        assert forall|i: int| 0 <= i < lines(s).len() implies no_newline(#[trigger] lines(s)[i]) by {
            if i < done.len() {
                assert(lines(s)[i] == done[i]);
            }
        }
    }
}

proof fn lemma_comment_start_none(s: Seq<char>, i: nat)
    requires
        i <= s.len(),
        forall|j: int| 0 <= j < s.len() - 1 ==> !(#[trigger] s[j] == '/' && s[j + 1] == '/'),
    ensures
        comment_start(s, i) == s.len(),
    decreases s.len() - i,
{
    if i + 1 < s.len() {
        lemma_comment_start_none(s, i + 1);
    }
}

/// The line that cleaning keeps from `l`, without its newline.
pub open spec fn kept(l: Seq<char>) -> Seq<char> {
    cleaned(l).drop_last()
}

/// The lines kept from the first `k` lines of `ls`.
pub open spec fn kept_lines(ls: Seq<Seq<char>>, k: nat) -> Seq<Seq<char>>
    decreases k,
{
    if k == 0 || k > ls.len() {
        Seq::empty()
    } else if cleaned(ls[k - 1]).len() == 0 {
        kept_lines(ls, (k - 1) as nat)
    } else {
        kept_lines(ls, (k - 1) as nat).push(kept(ls[k - 1]))
    }
}

proof fn lemma_kept_line(l: Seq<char>)
    requires
        no_newline(l),
        cleaned(l).len() > 0,
    ensures
        no_newline(kept(l)),
        kept(l).len() > 0,
        cleaned(kept(l)) == cleaned(l),
        strip_cr(kept(l)) == kept(l),
{
    lemma_cleaned_is_trimmed(l);
    let c = kept(l);
    let f = trim_front(l);
    let t = trim(l);
    let p = comment_start(t, 0);
    lemma_trim_front(l);
    lemma_trim_back(f);
    lemma_comment_start(t, 0);
    lemma_trim_back(t.subrange(0, p as int));
    assert(cleaned(l).drop_last() =~= trim_back(t.subrange(0, p as int)));
    assert forall|i: int| 0 <= i < c.len() implies #[trigger] c[i] != '\n' by {
        assert(c[i] == t[i]);
        assert(t[i] == f[i]);
        assert(f[i] == l[l.len() - f.len() + i]);
    }
    assert(trim_front(c) == c);
    assert(trim_back(c) == c);
    lemma_comment_start_none(c, 0);
    assert(c.subrange(0, c.len() as int) =~= c);
    assert(cleaned(kept(l)) =~= cleaned(l));
}

proof fn lemma_scan_open(all: Seq<char>, base: nat, done: Seq<Seq<char>>, c: Seq<char>, j: nat)
    requires
        j <= c.len(),
        base + c.len() <= all.len(),
        all.subrange(base as int, (base + c.len()) as int) == c,
        no_newline(c),
        scan_lines(all, base) == (done, Seq::<char>::empty()),
    ensures
        scan_lines(all, base + j) == (done, c.subrange(0, j as int)),
    decreases j,
{
    if j == 0 {
        assert(c.subrange(0, 0) =~= Seq::<char>::empty());
    } else {
        lemma_scan_open(all, base, done, c, (j - 1) as nat);
        assert(all[base + j - 1] == all.subrange(base as int, (base + c.len()) as int)[j - 1]);
        assert(c.subrange(0, j - 1).push(c[j - 1]) =~= c.subrange(0, j as int));
    }
}

/// Splitting the cleaned text of the first `k` lines into lines gives back
/// exactly the kept lines.
proof fn lemma_scan_cleaned(ls: Seq<Seq<char>>, k: nat)
    requires
        k <= ls.len(),
        forall|i: int| 0 <= i < ls.len() ==> no_newline(#[trigger] ls[i]),
    ensures
        scan_lines(cleaned_lines(ls, k), cleaned_lines(ls, k).len())
            == (kept_lines(ls, k), Seq::<char>::empty()),
    decreases k,
{
    if k > 0 {
        lemma_scan_cleaned(ls, (k - 1) as nat);
        let prev = cleaned_lines(ls, (k - 1) as nat);
        let all = cleaned_lines(ls, k);
        let l = ls[k - 1];
        if cleaned(l).len() > 0 {
            lemma_kept_line(l);
            let c = kept(l);
            assert(all =~= prev + c.push('\n'));
            assert(all.subrange(prev.len() as int, (prev.len() + c.len()) as int) =~= c);
            assert(all.subrange(0, prev.len() as int) =~= prev.subrange(0, prev.len() as int));
            lemma_scan_lines_prefix(all, prev, prev.len());
            lemma_scan_open(all, prev.len(), kept_lines(ls, (k - 1) as nat), c, c.len());
            assert(all[prev.len() + c.len() as int] == '\n');
            assert(c.subrange(0, c.len() as int) =~= c);
        } else {
            assert(all =~= prev);
        }
    }
}

proof fn lemma_cleaned_kept(ls: Seq<Seq<char>>, k: nat)
    requires
        k <= ls.len(),
        forall|i: int| 0 <= i < ls.len() ==> no_newline(#[trigger] ls[i]),
    ensures
        cleaned_lines(kept_lines(ls, k), kept_lines(ls, k).len()) == cleaned_lines(ls, k),
    decreases k,
{
    if k > 0 {
        lemma_cleaned_kept(ls, (k - 1) as nat);
        let l = ls[k - 1];
        if cleaned(l).len() > 0 {
            lemma_kept_line(l);
            let ks = kept_lines(ls, k);
            let prev = kept_lines(ls, (k - 1) as nat);
            assert(ks.drop_last() == prev);
            lemma_cleaned_lines_prefix(ks, prev.len());
        }
    }
}

proof fn lemma_cleaned_lines_prefix(ls: Seq<Seq<char>>, k: nat)
    requires
        k < ls.len(),
    ensures
        cleaned_lines(ls, k) == cleaned_lines(ls.drop_last(), k),
    decreases k,
{
    if k > 0 {
        lemma_cleaned_lines_prefix(ls, (k - 1) as nat);
    }
}

/// Cleaning cleaned text changes nothing.
pub proof fn lemma_sanitized_idempotent(s: Seq<char>)
    ensures
        sanitized(sanitized(s)) == sanitized(s),
{
    let ls = lines(s);
    lemma_lines_no_newline(s);
    let once = sanitized(s);
    lemma_scan_cleaned(ls, ls.len());
    assert(lines(once) == kept_lines(ls, ls.len()));
    lemma_cleaned_kept(ls, ls.len());
}
} // verus!
