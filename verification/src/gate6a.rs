//! Recognition evaluation: the verdict on each corpus row from what was
//! expected of it and what the pipeline observed, the tallies over all
//! rows, and the expectations table.
use vstd::prelude::*;
use crate::text::{str_eq, chars_of, string_of};
use crate::chars::{starts_with, trim, lines, split_char, views, trim_vec, lines_vec, split_vec, starts_with_vec};

verus! {

/// What a corpus row is expected to show.
pub struct Expectation {
    /// `N` for a negative row, anything else for a positive one.
    pub class: String,
    /// Such as `contained_abstain` or `recall_gap_known`.
    pub expectation: String,
    pub expected_lower: String,
    pub expected_verify: String,
    /// The concepts a positive row must be recognized with.
    pub expected_concepts: Vec<String>,
    pub key_property: String,
}

/// What the pipeline showed on a corpus row.
pub struct Observation {
    pub lowered: bool,
    pub verified: bool,
    /// The concepts recognized, by name.
    pub concepts: Vec<String>,
    pub truths: usize,
    pub beliefs: usize,
    pub candidates: usize,
    pub rewrites: usize,
    pub error: Option<String>,
}

/// The verdict on one row.
#[derive(Clone, Copy, Debug, PartialEq, Eq, Structural)]
pub enum RowOutcome {
    /// A `contained_abstain` negative, with what it must not have had.
    Contained { unsafe_candidates: bool, unsafe_rewrites: bool },
    /// Another negative, with what it must not have had.
    Abstained { false_positive: bool, unsafe_candidates: bool, unsafe_rewrites: bool },
    /// A positive recognized with every expected concept.
    Recognized,
    /// A positive missed where the miss is a known open gap.
    KnownGap,
    /// A positive missed.
    RecallMiss,
}

/// Whether a concept name is one of the reduction concepts.
pub open spec fn is_reduction_concept(c: Seq<char>) -> bool {
    c == "CardinalityReduction"@ || c == "SumReduction"@ || c == "ConjunctiveReduction"@ || c
        == "DisjunctiveReduction"@
}

pub open spec fn names(v: Seq<String>) -> Seq<Seq<char>> {
    v.map_values(|s: String| s@)
}

/// Whether some observed concept is a reduction concept.
pub open spec fn has_reduction_concept(concepts: Seq<Seq<char>>) -> bool {
    exists|i: int| 0 <= i < concepts.len() && is_reduction_concept(#[trigger] concepts[i])
}

/// Whether every expected concept was observed.
pub open spec fn all_recognized(expected: Seq<Seq<char>>, observed: Seq<Seq<char>>) -> bool {
    forall|i: int| 0 <= i < expected.len() ==> observed.contains(#[trigger] expected[i])
}

/// The verdict on a row: a negative (class `N`) must show no candidate and
/// no rewrite, and, unless it is `contained_abstain`, no reduction concept;
/// a positive passes when every expected concept is observed, and is a
/// known gap when it is not but its expectation is `recall_gap_known`.
pub open spec fn spec_row_outcome(e: Expectation, o: Observation) -> RowOutcome {
    if e.class@ == "N"@ {
        if e.expectation@ == "contained_abstain"@ {
            RowOutcome::Contained { unsafe_candidates: o.candidates > 0, unsafe_rewrites: o.rewrites > 0 }
        } else {
            RowOutcome::Abstained {
                false_positive: has_reduction_concept(names(o.concepts@)),
                unsafe_candidates: o.candidates > 0,
                unsafe_rewrites: o.rewrites > 0,
            }
        }
    } else if all_recognized(names(e.expected_concepts@), names(o.concepts@)) {
        RowOutcome::Recognized
    } else if e.expectation@ == "recall_gap_known"@ {
        RowOutcome::KnownGap
    } else {
        RowOutcome::RecallMiss
    }
}

/// Whether a verdict passes the row.
pub open spec fn spec_row_passes(o: RowOutcome) -> bool {
    match o {
        RowOutcome::Contained { unsafe_candidates, unsafe_rewrites } => !unsafe_candidates && !unsafe_rewrites,
        RowOutcome::Abstained { false_positive, unsafe_candidates, unsafe_rewrites } => !false_positive
            && !unsafe_candidates && !unsafe_rewrites,
        RowOutcome::Recognized => true,
        RowOutcome::KnownGap => true,
        RowOutcome::RecallMiss => false,
    }
}

/// A row passes exactly when: for a negative row, nothing was proposed or
/// rewritten and, unless the row is `contained_abstain`, no reduction
/// concept was recognized; for a positive row, every expected concept was
/// recognized or the miss is a known gap.
pub proof fn law_row_passes_when(e: Expectation, o: Observation)
    ensures
        spec_row_passes(spec_row_outcome(e, o)) == (if e.class@ == "N"@ {
            o.candidates == 0 && o.rewrites == 0 && (e.expectation@ == "contained_abstain"@ || !has_reduction_concept(
                names(o.concepts@),
            ))
        } else {
            all_recognized(names(e.expected_concepts@), names(o.concepts@)) || e.expectation@ == "recall_gap_known"@
        }),
{
}


fn is_reduction(c: &str) -> (b: bool)
    ensures
        b == is_reduction_concept(c@),
{
    str_eq(c, "CardinalityReduction") || str_eq(c, "SumReduction") || str_eq(c, "ConjunctiveReduction") || str_eq(
        c,
        "DisjunctiveReduction",
    )
}

fn contains_name(v: &Vec<String>, c: &str) -> (b: bool)
    ensures
        b == names(v@).contains(c@),
{
    let mut i: usize = 0;
    while i < v.len()
        invariant
            i <= v@.len(),
            forall|k: int| 0 <= k < i ==> names(v@)[k] != c@,
        decreases v@.len() - i,
    {
        if str_eq(v[i].as_str(), c) {
            assert(names(v@)[i as int] == c@);
            return true;
        }
        i += 1;
    }
    false
}

/// The verdict on a row (see `spec_row_outcome`).
pub fn classify_row(expect: &Expectation, obs: &Observation) -> (o: RowOutcome)
    ensures
        o == spec_row_outcome(*expect, *obs),
{
    if str_eq(expect.class.as_str(), "N") {
        if str_eq(expect.expectation.as_str(), "contained_abstain") {
            return RowOutcome::Contained { unsafe_candidates: obs.candidates > 0, unsafe_rewrites: obs.rewrites > 0 };
        }
        let mut fp = false;
        let mut i: usize = 0;
        while i < obs.concepts.len()
            invariant
                i <= obs.concepts@.len(),
                fp == exists|k: int| 0 <= k < i && is_reduction_concept(#[trigger] names(obs.concepts@)[k]),
            decreases obs.concepts@.len() - i,
        {
            if is_reduction(obs.concepts[i].as_str()) {
                assert(is_reduction_concept(names(obs.concepts@)[i as int]));
                fp = true;
            }
            i += 1;
        }
        return RowOutcome::Abstained {
            false_positive: fp,
            unsafe_candidates: obs.candidates > 0,
            unsafe_rewrites: obs.rewrites > 0,
        };
    }
    let mut all = true;
    let mut i: usize = 0;
    while i < expect.expected_concepts.len()
        invariant
            i <= expect.expected_concepts@.len(),
            all == forall|k: int| 0 <= k < i ==> names(obs.concepts@).contains(#[trigger] names(expect.expected_concepts@)[k]),
        decreases expect.expected_concepts@.len() - i,
    {
        let found = contains_name(&obs.concepts, expect.expected_concepts[i].as_str());
        assert(names(expect.expected_concepts@)[i as int] == expect.expected_concepts@[i as int]@);
        if !found {
            all = false;
        }
        i += 1;
    }
    if all {
        RowOutcome::Recognized
    } else if str_eq(expect.expectation.as_str(), "recall_gap_known") {
        RowOutcome::KnownGap
    } else {
        RowOutcome::RecallMiss
    }
}

/// Whether a verdict passes the row (see `spec_row_passes`).
pub fn row_passes(o: RowOutcome) -> (b: bool)
    ensures
        b == spec_row_passes(o),
{
    match o {
        RowOutcome::Contained { unsafe_candidates, unsafe_rewrites } => !unsafe_candidates && !unsafe_rewrites,
        RowOutcome::Abstained { false_positive, unsafe_candidates, unsafe_rewrites } => !false_positive
            && !unsafe_candidates && !unsafe_rewrites,
        RowOutcome::Recognized => true,
        RowOutcome::KnownGap => true,
        RowOutcome::RecallMiss => false,
    }
}


// ── Tallies ─────────────────────────────────────────────────────────────

/// The tallies over all rows.
#[derive(Clone, Copy, Debug, PartialEq, Eq)]
pub struct Gate6aSummary {
    pub positives: usize,
    pub recognized: usize,
    pub recall_misses: usize,
    pub known_gap_misses: usize,
    pub negatives: usize,
    pub contained_rows: usize,
    pub false_positive_recognitions: usize,
    pub unsafe_candidates: usize,
    pub unsafe_rewrites: usize,
    /// Failing rows, rows missing from the expectations included.
    pub row_failures: usize,
}

/// How many of `s` satisfy `f`.
pub open spec fn count_where(s: Seq<RowOutcome>, f: spec_fn(RowOutcome) -> bool) -> nat
    decreases s.len(),
{
    if s.len() == 0 {
        0
    } else {
        count_where(s.drop_last(), f) + if f(s.last()) { 1nat } else { 0nat }
    }
}

pub open spec fn is_negative(o: RowOutcome) -> bool {
    o is Contained || o is Abstained
}

pub open spec fn has_unsafe_candidates(o: RowOutcome) -> bool {
    match o {
        RowOutcome::Contained { unsafe_candidates, .. } => unsafe_candidates,
        RowOutcome::Abstained { unsafe_candidates, .. } => unsafe_candidates,
        _ => false,
    }
}

pub open spec fn has_unsafe_rewrites(o: RowOutcome) -> bool {
    match o {
        RowOutcome::Contained { unsafe_rewrites, .. } => unsafe_rewrites,
        RowOutcome::Abstained { unsafe_rewrites, .. } => unsafe_rewrites,
        _ => false,
    }
}

pub open spec fn has_false_positive(o: RowOutcome) -> bool {
    o matches RowOutcome::Abstained { false_positive, .. } && false_positive
}

/// The tallies of the verdicts `s`, with `unclassified` corpus rows that
/// had no expectation (each a failure).
pub open spec fn spec_summary(s: Seq<RowOutcome>, unclassified: nat) -> (nat, nat, nat, nat, nat, nat, nat, nat, nat, nat) {
    (
        count_where(s, |o: RowOutcome| !is_negative(o)),
        count_where(s, |o: RowOutcome| o is Recognized),
        count_where(s, |o: RowOutcome| o is RecallMiss),
        count_where(s, |o: RowOutcome| o is KnownGap),
        count_where(s, |o: RowOutcome| is_negative(o)),
        count_where(s, |o: RowOutcome| o is Contained),
        count_where(s, |o: RowOutcome| has_false_positive(o)),
        count_where(s, |o: RowOutcome| has_unsafe_candidates(o)),
        count_where(s, |o: RowOutcome| has_unsafe_rewrites(o)),
        unclassified + count_where(s, |o: RowOutcome| !spec_row_passes(o)),
    )
}

pub open spec fn summary_tuple(m: Gate6aSummary) -> (nat, nat, nat, nat, nat, nat, nat, nat, nat, nat) {
    (
        m.positives as nat,
        m.recognized as nat,
        m.recall_misses as nat,
        m.known_gap_misses as nat,
        m.negatives as nat,
        m.contained_rows as nat,
        m.false_positive_recognitions as nat,
        m.unsafe_candidates as nat,
        m.unsafe_rewrites as nat,
        m.row_failures as nat,
    )
}

proof fn lemma_count_bound(s: Seq<RowOutcome>, f: spec_fn(RowOutcome) -> bool)
    ensures
        count_where(s, f) <= s.len(),
    decreases s.len(),
{
    if s.len() > 0 {
        lemma_count_bound(s.drop_last(), f);
    }
}

/// The tallies partition the rows: every row is a positive or a negative,
/// and every positive is recognized, a recall miss or a known gap; the
/// failures are the unclassified rows and the rows that do not pass.
pub proof fn law_tallies_partition(s: Seq<RowOutcome>, unclassified: nat)
    ensures
        spec_summary(s, unclassified).0 + spec_summary(s, unclassified).4 == s.len(),
        spec_summary(s, unclassified).1 + spec_summary(s, unclassified).2 + spec_summary(s, unclassified).3
            == spec_summary(s, unclassified).0,
        spec_summary(s, unclassified).9 >= unclassified,
    decreases s.len(),
{
    if s.len() > 0 {
        law_tallies_partition(s.drop_last(), unclassified);
    }
}


fn bump(n: usize, b: bool) -> (r: usize)
    requires
        n < usize::MAX,
    ensures
        r == n + if b { 1nat } else { 0nat },
{
    if b { n + 1 } else { n }
}

/// The tallies of the verdicts (see `spec_summary`).
pub fn summarize(outcomes: &Vec<RowOutcome>, unclassified: usize) -> (m: Gate6aSummary)
    requires
        unclassified + outcomes@.len() <= usize::MAX,
    ensures
        summary_tuple(m) == spec_summary(outcomes@, unclassified as nat),
{
    let ghost s = outcomes@;
    let mut m = Gate6aSummary {
        positives: 0,
        recognized: 0,
        recall_misses: 0,
        known_gap_misses: 0,
        negatives: 0,
        contained_rows: 0,
        false_positive_recognitions: 0,
        unsafe_candidates: 0,
        unsafe_rewrites: 0,
        row_failures: unclassified,
    };
    let mut i: usize = 0;
    assert(s.subrange(0, 0) =~= Seq::<RowOutcome>::empty());
    while i < outcomes.len()
        invariant
            s == outcomes@,
            i <= s.len(),
            unclassified + s.len() <= usize::MAX,
            summary_tuple(m) == spec_summary(s.subrange(0, i as int), unclassified as nat),
        decreases s.len() - i,
    {
        let o = outcomes[i];
        let ghost t = s.subrange(0, i as int);
        proof {
            assert(s.subrange(0, i + 1).drop_last() =~= t);
            assert(s.subrange(0, i + 1).last() == o);
            lemma_count_bound(t, |o: RowOutcome| !is_negative(o));
            lemma_count_bound(t, |o: RowOutcome| o is Recognized);
            lemma_count_bound(t, |o: RowOutcome| o is RecallMiss);
            lemma_count_bound(t, |o: RowOutcome| o is KnownGap);
            lemma_count_bound(t, |o: RowOutcome| is_negative(o));
            lemma_count_bound(t, |o: RowOutcome| o is Contained);
            lemma_count_bound(t, |o: RowOutcome| has_false_positive(o));
            lemma_count_bound(t, |o: RowOutcome| has_unsafe_candidates(o));
            lemma_count_bound(t, |o: RowOutcome| has_unsafe_rewrites(o));
            lemma_count_bound(t, |o: RowOutcome| !spec_row_passes(o));
        }
        let (neg, cont, fp, uc, ur) = match o {
            RowOutcome::Contained { unsafe_candidates, unsafe_rewrites } => (true, true, false, unsafe_candidates, unsafe_rewrites),
            RowOutcome::Abstained { false_positive, unsafe_candidates, unsafe_rewrites } => (
                true,
                false,
                false_positive,
                unsafe_candidates,
                unsafe_rewrites,
            ),
            _ => (false, false, false, false, false),
        };
        let pass = row_passes(o);
        m.positives = bump(m.positives, !neg);
        m.recognized = bump(m.recognized, o == RowOutcome::Recognized);
        m.recall_misses = bump(m.recall_misses, o == RowOutcome::RecallMiss);
        m.known_gap_misses = bump(m.known_gap_misses, o == RowOutcome::KnownGap);
        m.negatives = bump(m.negatives, neg);
        m.contained_rows = bump(m.contained_rows, cont);
        m.false_positive_recognitions = bump(m.false_positive_recognitions, fp);
        m.unsafe_candidates = bump(m.unsafe_candidates, uc);
        m.unsafe_rewrites = bump(m.unsafe_rewrites, ur);
        m.row_failures = bump(m.row_failures, !pass);
        i += 1;
    }
    assert(s.subrange(0, s.len() as int) =~= s);
    m
}

/// The verdict over all rows: a pass exactly when no row failed.
pub fn verdict(m: &Gate6aSummary) -> (pass: bool)
    ensures
        pass == (m.row_failures == 0),
{
    m.row_failures == 0
}


// ── The expectations table ──────────────────────────────────────────────

/// Whether a trimmed line of the table can hold a row: not empty, not a
/// comment (`#`), not the column header (`kernel` and a tab).
pub open spec fn is_expectation_line(t: Seq<char>) -> bool {
    !(t.len() == 0 || starts_with(t, "#"@) || starts_with(t, "kernel\t"@))
}

/// The tab-separated fields of the lines that hold a row: lines with at
/// least nine fields (shorter ones are skipped).
pub open spec fn expectation_fields(ls: Seq<Seq<char>>) -> Seq<Seq<Seq<char>>>
    decreases ls.len(),
{
    if ls.len() == 0 {
        Seq::empty()
    } else {
        let p = expectation_fields(ls.drop_last());
        let t = trim(ls.last());
        if is_expectation_line(t) && split_char(t, '\t').len() >= 9 {
            p.push(split_char(t, '\t'))
        } else {
            p
        }
    }
}

/// The concepts of a `;`-separated list, without `none` and empty names.
pub open spec fn concept_list(pieces: Seq<Seq<char>>) -> Seq<Seq<char>>
    decreases pieces.len(),
{
    if pieces.len() == 0 {
        Seq::empty()
    } else {
        let p = concept_list(pieces.drop_last());
        let c = pieces.last();
        if c != "none"@ && c.len() > 0 {
            p.push(c)
        } else {
            p
        }
    }
}

/// Whether `row` is the kernel name and expectation the fields `f` make.
pub open spec fn expectation_row(row: (String, Expectation), f: Seq<Seq<char>>) -> bool {
    &&& row.0@ == f[0]
    &&& row.1.class@ == f[1]
    &&& row.1.expectation@ == f[2]
    &&& row.1.expected_lower@ == f[3]
    &&& row.1.expected_verify@ == f[4]
    &&& names(row.1.expected_concepts@) == concept_list(split_char(f[5], ';'))
    &&& row.1.key_property@ == f[8]
}

fn concepts_of(v: &Vec<char>) -> (r: Vec<String>)
    ensures
        names(r@) == concept_list(split_char(v@, ';')),
{
    let pieces = split_vec(v, ';');
    let none = chars_of("none");
    let mut r: Vec<String> = Vec::new();
    let mut i: usize = 0;
    assert(views(pieces@).subrange(0, 0) =~= Seq::<Seq<char>>::empty());
    assert(names(r@) =~= Seq::<Seq<char>>::empty());
    while i < pieces.len()
        invariant
            i <= pieces@.len(),
            none@ == "none"@,
            views(pieces@) == split_char(v@, ';'),
            names(r@) == concept_list(views(pieces@).subrange(0, i as int)),
        decreases pieces@.len() - i,
    {
        let ghost pre = views(pieces@).subrange(0, i + 1);
        assert(pre.drop_last() =~= views(pieces@).subrange(0, i as int));
        assert(pre.last() == pieces@[i as int]@);
        let c = &pieces[i];
        if !crate::chars::chars_eq(c, &none) && c.len() > 0 {
            let ghost before = r@;
            r.push(string_of(c));
            assert(names(r@) =~= names(before).push(c@));
        }
        i += 1;
    }
    assert(views(pieces@).subrange(0, pieces@.len() as int) =~= views(pieces@));
    r
}

/// The rows of the expectations table text: each trimmed line that is not
/// empty, a comment or the header and has at least nine tab-separated
/// fields, as its kernel name and expectation.
pub fn parse_expectations(text: &str) -> (r: Vec<(String, Expectation)>)
    ensures
        r@.len() == expectation_fields(lines(text@)).len(),
        forall|i: int| 0 <= i < r@.len() ==> #[trigger] expectation_row(r@[i], expectation_fields(lines(text@))[i]),
{
    let ls = lines_vec(&chars_of(text));
    let ghost all = views(ls@);
    let hash = chars_of("#");
    let header = chars_of("kernel\t");
    let mut out: Vec<(String, Expectation)> = Vec::new();
    let mut k: usize = 0;
    assert(all.subrange(0, 0) =~= Seq::<Seq<char>>::empty());
    while k < ls.len()
        invariant
            all == views(ls@),
            all == lines(text@),
            hash@ == "#"@,
            header@ == "kernel\t"@,
            k <= ls@.len(),
            out@.len() == expectation_fields(all.subrange(0, k as int)).len(),
            forall|i: int|
                0 <= i < out@.len() ==> #[trigger] expectation_row(out@[i], expectation_fields(all.subrange(0, k as int))[i]),
        decreases ls@.len() - k,
    {
        let t = trim_vec(&ls[k]);
        let ghost pre = all.subrange(0, k + 1);
        assert(pre.drop_last() =~= all.subrange(0, k as int));
        assert(pre.last() == ls@[k as int]@);
        let ghost prev = expectation_fields(all.subrange(0, k as int));
        if t.len() == 0 || starts_with_vec(&t, &hash) || starts_with_vec(&t, &header) {
            k += 1;
            assert(expectation_fields(all.subrange(0, k as int)) == prev);
        } else {
            let f = split_vec(&t, '\t');
            if f.len() < 9 {
                k += 1;
                assert(expectation_fields(all.subrange(0, k as int)) == prev);
            } else {
                let ghost fs = views(f@);
                let row = (
                    string_of(&f[0]),
                    Expectation {
                        class: string_of(&f[1]),
                        expectation: string_of(&f[2]),
                        expected_lower: string_of(&f[3]),
                        expected_verify: string_of(&f[4]),
                        expected_concepts: concepts_of(&f[5]),
                        key_property: string_of(&f[8]),
                    },
                );
                let ghost new_row = row;
                assert(expectation_row(new_row, fs));
                let ghost before = out@;
                out.push(row);
                k += 1;
                assert(expectation_fields(all.subrange(0, k as int)) == prev.push(fs));
                assert forall|i: int|
                    0 <= i < out@.len() implies #[trigger] expectation_row(out@[i], expectation_fields(all.subrange(0, k as int))[i]) by {
                    if i < before.len() {
                        assert(out@[i] == before[i]);
                    } else {
                        assert(out@[i] == new_row);
                    }
                }
            }
        }
    }
    assert(all.subrange(0, ls@.len() as int) =~= all);
    out
}

} // verus!
