use sir::gate6a::{
    classify_row, parse_expectations, row_passes, summarize, verdict, Expectation, Observation, RowOutcome,
};

fn expect(class: &str, expectation: &str, concepts: &[&str]) -> Expectation {
    Expectation {
        class: class.to_string(),
        expectation: expectation.to_string(),
        expected_lower: "yes".to_string(),
        expected_verify: "yes".to_string(),
        expected_concepts: concepts.iter().map(|c| c.to_string()).collect(),
        key_property: "k".to_string(),
    }
}

fn observe(concepts: &[&str], candidates: usize, rewrites: usize) -> Observation {
    Observation {
        lowered: true,
        verified: true,
        concepts: concepts.iter().map(|c| c.to_string()).collect(),
        truths: 0,
        beliefs: 0,
        candidates,
        rewrites,
        error: None,
    }
}

#[test]
fn negative_rows() {
    let safe = classify_row(&expect("N", "abstain", &[]), &observe(&["PredicateMap"], 0, 0));
    assert_eq!(safe, RowOutcome::Abstained { false_positive: false, unsafe_candidates: false, unsafe_rewrites: false });
    assert!(row_passes(safe));
    let fp = classify_row(&expect("N", "abstain", &[]), &observe(&["SumReduction"], 1, 0));
    assert_eq!(fp, RowOutcome::Abstained { false_positive: true, unsafe_candidates: true, unsafe_rewrites: false });
    assert!(!row_passes(fp));
    let contained = classify_row(&expect("N", "contained_abstain", &[]), &observe(&["SumReduction"], 0, 0));
    assert_eq!(contained, RowOutcome::Contained { unsafe_candidates: false, unsafe_rewrites: false });
    assert!(row_passes(contained));
    let violated = classify_row(&expect("N", "contained_abstain", &[]), &observe(&[], 0, 2));
    assert_eq!(violated, RowOutcome::Contained { unsafe_candidates: false, unsafe_rewrites: true });
    assert!(!row_passes(violated));
}

#[test]
fn positive_rows() {
    let e = expect("P", "recognize", &["SumReduction", "PredicateMap"]);
    assert_eq!(classify_row(&e, &observe(&["PredicateMap", "SumReduction", "X"], 3, 1)), RowOutcome::Recognized);
    assert_eq!(classify_row(&e, &observe(&["SumReduction"], 0, 0)), RowOutcome::RecallMiss);
    let gap = expect("P", "recall_gap_known", &["SumReduction"]);
    assert_eq!(classify_row(&gap, &observe(&[], 0, 0)), RowOutcome::KnownGap);
    assert!(row_passes(RowOutcome::KnownGap));
    assert!(!row_passes(RowOutcome::RecallMiss));
}

#[test]
fn tallies_and_verdict() {
    let outcomes = vec![
        RowOutcome::Recognized,
        RowOutcome::KnownGap,
        RowOutcome::RecallMiss,
        RowOutcome::Contained { unsafe_candidates: true, unsafe_rewrites: false },
        RowOutcome::Abstained { false_positive: true, unsafe_candidates: false, unsafe_rewrites: true },
        RowOutcome::Abstained { false_positive: false, unsafe_candidates: false, unsafe_rewrites: false },
    ];
    let m = summarize(&outcomes, 1);
    assert_eq!(m.positives, 3);
    assert_eq!(m.recognized, 1);
    assert_eq!(m.recall_misses, 1);
    assert_eq!(m.known_gap_misses, 1);
    assert_eq!(m.negatives, 3);
    assert_eq!(m.contained_rows, 1);
    assert_eq!(m.false_positive_recognitions, 1);
    assert_eq!(m.unsafe_candidates, 1);
    assert_eq!(m.unsafe_rewrites, 1);
    assert_eq!(m.row_failures, 4);
    assert!(!verdict(&m));
    let clean = summarize(&vec![RowOutcome::Recognized], 0);
    assert!(verdict(&clean));
}

#[test]
fn expectations_table() {
    let text = "# header comment\nkernel\tclass\texp\tlower\tverify\tconcepts\ta\tb\tkey\n\
                k1\tP\trecognize\tyes\tyes\tSumReduction;PredicateMap\tx\ty\tsum\n\
                short\tP\n\
                \x20 k2\tN\tabstain\tyes\tno\tnone\tx\ty\tnothing\t\n";
    let rows = parse_expectations(text);
    assert_eq!(rows.len(), 2);
    assert_eq!(rows[0].0, "k1");
    assert_eq!(rows[0].1.class, "P");
    assert_eq!(rows[0].1.expected_concepts, vec!["SumReduction".to_string(), "PredicateMap".to_string()]);
    assert_eq!(rows[0].1.key_property, "sum");
    assert_eq!(rows[1].0, "k2");
    assert_eq!(rows[1].1.expected_verify, "no");
    assert!(rows[1].1.expected_concepts.is_empty());
    assert_eq!(rows[1].1.key_property, "nothing");
}
