//! Allocation of fresh labels for one translation run.
use vstd::prelude::*;
use crate::text::{decimal, digit_char, is_digit, write_decimal, write_str};
use crate::emit::{end_prefix, return_prefix, true_prefix, Cmp};

verus! {

/// The label made of `prefix` followed by the numeral of `n`.
pub open spec fn label_text(prefix: Seq<char>, n: nat) -> Seq<char> {
    prefix + decimal(n)
}

/// Hands out labels `prefix` + `n` for `n` = 0, 1, 2, ... in turn, so that no
/// number is used twice within one run.
pub struct LabelAllocator {
    next: usize,
}

impl LabelAllocator {
    /// The number that the next label will carry.
    pub closed spec fn next_number(&self) -> nat {
        self.next as nat
    }

    /// A fresh allocator, for a new translation run.
    pub fn new() -> (r: LabelAllocator)
        ensures
            r.next_number() == 0,
    {
        LabelAllocator { next: 0 }
    }

    /// The number that the next label will carry.
    pub fn peek(&self) -> (r: usize)
        ensures
            r as nat == self.next_number(),
    {
        self.next
    }

    /// Returns `prefix` followed by the current number, and moves to the next number.
    pub fn unique_label(&mut self, prefix: &str) -> (r: String)
        requires
            old(self).next_number() < usize::MAX,
        ensures
            r@ == label_text(prefix@, old(self).next_number()),
            final(self).next_number() == old(self).next_number() + 1,
    {
        let mut r = String::new();
        write_str(&mut r, prefix);
        write_decimal(&mut r, self.next as u64);
        self.next = self.next + 1;
        r
    }
}


/// A prefix after which a numeral can be told apart: it ends in a character
/// that is not a digit.
pub open spec fn ends_in_non_digit(p: Seq<char>) -> bool {
    p.len() > 0 && !is_digit(p.last())
}

proof fn lemma_decimal_digits(n: nat)
    ensures
        decimal(n).len() >= 1,
        n >= 10 ==> decimal(n).len() >= 2,
        forall|i: int| 0 <= i < decimal(n).len() ==> is_digit(#[trigger] decimal(n)[i]),
    decreases n,
{
    if n >= 10 {
        lemma_decimal_digits(n / 10);
        assert forall|i: int| 0 <= i < decimal(n).len() implies is_digit(#[trigger] decimal(n)[i]) by {
            if i < decimal(n / 10).len() {
                assert(decimal(n)[i] == decimal(n / 10)[i]);
            }
        }
    }
}

proof fn lemma_decimal_injective(a: nat, b: nat)
    requires
        decimal(a) == decimal(b),
    ensures
        a == b,
    decreases a,
{
    lemma_decimal_digits(a);
    lemma_decimal_digits(b);
    if a < 10 && b < 10 {
        assert(decimal(a)[0] == digit_char(a));
        assert(decimal(b)[0] == digit_char(b));
    } else if a >= 10 && b >= 10 {
        assert(decimal(a).last() == digit_char(a % 10));
        assert(decimal(b).last() == digit_char(b % 10));
        assert(decimal(a).drop_last() =~= decimal(a / 10));
        assert(decimal(b).drop_last() =~= decimal(b / 10));
        lemma_decimal_injective(a / 10, b / 10);
    }
}

/// Two labels whose numbers differ are different texts, whatever their
/// prefixes, as long as each prefix ends in a character that is not a digit.
pub proof fn lemma_labels_distinct(pa: Seq<char>, na: nat, pb: Seq<char>, nb: nat)
    requires
        ends_in_non_digit(pa),
        ends_in_non_digit(pb),
        na != nb,
    ensures
        label_text(pa, na) != label_text(pb, nb),
{
    let da = decimal(na);
    let db = decimal(nb);
    lemma_decimal_digits(na);
    lemma_decimal_digits(nb);
    if label_text(pa, na) == label_text(pb, nb) {
        let s = pa + da;
        assert(s == pb + db);
        if da.len() < db.len() {
            let j = pa.len() - 1;
            assert(s[j] == pa.last());
            assert(s[j] == db[j - pb.len()]);
        } else if db.len() < da.len() {
            let j = pb.len() - 1;
            assert(s[j] == pb.last());
            assert(s[j] == da[j - pa.len()]);
        } else {
            assert(da =~= s.subrange(pa.len() as int, s.len() as int));
            assert(db =~= s.subrange(pb.len() as int, s.len() as int));
            lemma_decimal_injective(na, nb);
        }
    }
}

proof fn lemma_comparison_prefixes(k: Cmp)
    ensures
        ends_in_non_digit(true_prefix(k)),
        ends_in_non_digit(end_prefix(k)),
{
    reveal_strlit("EQ_TRUE");
    reveal_strlit("GT_TRUE");
    reveal_strlit("LT_TRUE");
    reveal_strlit("EQ_END");
    reveal_strlit("GT_END");
    reveal_strlit("LT_END");
}

/// Return labels can be told apart too: their prefix ends in `r`, whatever
/// the calling function's name; so by `lemma_labels_distinct` a return label
/// differs from every other label of the run.
pub proof fn lemma_return_prefix(scope: Seq<char>)
    ensures
        ends_in_non_digit(return_prefix(scope)),
{
    reveal_strlit("$retAddr");
    assert(return_prefix(scope).last() == 'r');
}

/// The labels that comparisons of kinds `ks`, made one after another from
/// label number `start`, allocate: each takes its true label and then its
/// end label.
pub open spec fn comparison_labels(ks: Seq<Cmp>, start: nat) -> Seq<Seq<char>>
    decreases ks.len(),
{
    if ks.len() == 0 {
        Seq::empty()
    } else {
        let n = (start + 2 * (ks.len() - 1)) as nat;
        comparison_labels(ks.drop_last(), start)
            + seq![label_text(true_prefix(ks.last()), n), label_text(end_prefix(ks.last()), n + 1 as nat)]
    }
}

proof fn lemma_comparison_labels_shape(ks: Seq<Cmp>, start: nat)
    ensures
        comparison_labels(ks, start).len() == 2 * ks.len(),
        forall|i: int| 0 <= i < 2 * ks.len() ==> exists|p: Seq<char>| ends_in_non_digit(p)
            && #[trigger] comparison_labels(ks, start)[i] == label_text(p, (start + i) as nat),
    decreases ks.len(),
{
    if ks.len() > 0 {
        lemma_comparison_labels_shape(ks.drop_last(), start);
        lemma_comparison_prefixes(ks.last());
        let prev = comparison_labels(ks.drop_last(), start);
        let all = comparison_labels(ks, start);
        let n = (start + 2 * (ks.len() - 1)) as nat;
        assert forall|i: int| 0 <= i < 2 * ks.len() implies exists|p: Seq<char>| ends_in_non_digit(p)
            && #[trigger] all[i] == label_text(p, (start + i) as nat) by {
            if i < prev.len() {
                assert(all[i] == prev[i]);
            } else if i == prev.len() {
                assert(all[i] == label_text(true_prefix(ks.last()), (start + i) as nat));
            } else {
                assert(all[i] == label_text(end_prefix(ks.last()), (start + i) as nat));
            }
        }
    }
}

/// However many comparisons a run makes, and of whatever kinds, the labels
/// they allocate are twice as many as the comparisons, and no two are equal.
pub proof fn lemma_comparison_labels_unique(ks: Seq<Cmp>, start: nat)
    ensures
        comparison_labels(ks, start).len() == 2 * ks.len(),
        comparison_labels(ks, start).no_duplicates(),
{
    let ls = comparison_labels(ks, start);
    lemma_comparison_labels_shape(ks, start);
    assert forall|i: int, j: int| 0 <= i < ls.len() && 0 <= j < ls.len() && i != j
        implies ls[i] != ls[j] by {
        let pi = choose|p: Seq<char>| ends_in_non_digit(p) && ls[i] == label_text(p, (start + i) as nat);
        let pj = choose|p: Seq<char>| ends_in_non_digit(p) && ls[j] == label_text(p, (start + j) as nat);
        lemma_labels_distinct(pi, (start + i) as nat, pj, (start + j) as nat);
    }
}

/// The labels of a whole run, however its comparisons and calls interleave:
/// if each label is a prefix ending in a non-digit followed by its number, and
/// the numbers are pairwise distinct (as the allocator hands them out), then no
/// two labels are equal.
pub proof fn lemma_run_labels_unique(prefixes: Seq<Seq<char>>, numbers: Seq<nat>)
    requires
        prefixes.len() == numbers.len(),
        forall|i: int| 0 <= i < prefixes.len() ==> ends_in_non_digit(#[trigger] prefixes[i]),
        numbers.no_duplicates(),
    ensures
        Seq::new(prefixes.len(), |i: int| label_text(prefixes[i], numbers[i])).no_duplicates(),
{
    let ls = Seq::new(prefixes.len(), |i: int| label_text(prefixes[i], numbers[i]));
    assert forall|i: int, j: int| 0 <= i < ls.len() && 0 <= j < ls.len() && i != j
        implies ls[i] != ls[j] by {
        lemma_labels_distinct(prefixes[i], numbers[i], prefixes[j], numbers[j]);
    }
}
} // verus!
