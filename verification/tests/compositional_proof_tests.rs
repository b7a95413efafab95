use sir::compositional_proof::{
    format_proof_report, list_text_from_quoted, spec_text_from_quoted, CompositionalProver, Parameter, ProofObligation, ProofStatus, SemanticSpec,
};

#[test]
fn prove_cardinality_equivalence() {
    let obligation = ProofObligation {
        name: "k50_count_masked".to_string(),
        description: "Cardinality: count bytes where (buf[i] & mask) == target".to_string(),
        specification: SemanticSpec::Cardinality {
            buf: "buf".to_string(),
            n: "n".to_string(),
            mask: "mask".to_string(),
            target: "target".to_string(),
        },
        parameters: vec![
            Parameter { name: "buf".to_string(), sir_node: 0, param_index: 0, description: "input buffer".to_string() },
            Parameter { name: "n".to_string(), sir_node: 1, param_index: 1, description: "buffer length".to_string() },
            Parameter { name: "mask".to_string(), sir_node: 2, param_index: 2, description: "bitmask".to_string() },
            Parameter { name: "target".to_string(), sir_node: 3, param_index: 3, description: "target value".to_string() },
        ],
    };
    let prover = CompositionalProver::new();
    let result = prover.prove(&obligation);
    assert_eq!(result.status, ProofStatus::Proven);
    assert_eq!(result.lemmas.len(), 6);
    assert!(result.lemmas.iter().all(|l| l.verified));
}

#[test]
fn prove_all_equivalence() {
    let obligation = ProofObligation {
        name: "k18_all_equal".to_string(),
        description: "All: check if all bytes equal val".to_string(),
        specification: SemanticSpec::All {
            buf: "buf".to_string(),
            n: "n".to_string(),
            val: "val".to_string(),
        },
        parameters: vec![
            Parameter { name: "buf".to_string(), sir_node: 0, param_index: 0, description: "input buffer".to_string() },
            Parameter { name: "n".to_string(), sir_node: 1, param_index: 1, description: "buffer length".to_string() },
            Parameter { name: "val".to_string(), sir_node: 2, param_index: 2, description: "target value".to_string() },
        ],
    };
    let prover = CompositionalProver::new();
    let result = prover.prove(&obligation);
    assert_eq!(result.status, ProofStatus::Proven);
}

#[test]
fn prove_sum_equivalence() {
    let obligation = ProofObligation {
        name: "k43_sum_ascii".to_string(),
        description: "Sum: sum all bytes in buffer".to_string(),
        specification: SemanticSpec::Sum {
            buf: "buf".to_string(),
            n: "n".to_string(),
        },
        parameters: vec![
            Parameter { name: "buf".to_string(), sir_node: 0, param_index: 0, description: "input buffer".to_string() },
            Parameter { name: "n".to_string(), sir_node: 1, param_index: 1, description: "buffer length".to_string() },
        ],
    };
    let prover = CompositionalProver::new();
    let result = prover.prove(&obligation);
    assert_eq!(result.status, ProofStatus::Proven);
}

#[test]
fn proof_report_is_readable() {
    let obligation = ProofObligation {
        name: "test".to_string(),
        description: "test".to_string(),
        specification: SemanticSpec::Sum {
            buf: "b".to_string(),
            n: "n".to_string(),
        },
        parameters: vec![],
    };
    let prover = CompositionalProver::new();
    let result = prover.prove(&obligation);
    let report = format_proof_report(&result);
    assert!(report.contains("PROVEN"));
    assert!(report.contains("per_byte_lemma"));
    assert!(report.contains("chunk_lemma"));
    assert!(report.contains("loop_invariant"));
    assert!(report.contains("tail_lemma"));
    assert!(report.contains("boundary_conditions"));
    assert!(report.contains("region_binding"));
}

#[test]
fn report_names_obligation_and_specification() {
    let obligation = ProofObligation {
        name: "k18_all_equal".to_string(),
        description: "quote \" here".to_string(),
        specification: SemanticSpec::All {
            buf: "b".to_string(),
            n: "len".to_string(),
            val: "v".to_string(),
        },
        parameters: vec![],
    };
    let result = CompositionalProver::new().prove(&obligation);
    let report = format_proof_report(&result);
    assert!(report.contains("Compositional Equivalence Proof: k18_all_equal"));
    assert!(report.contains("Specification: All { buf: \"b\", n: \"len\", val: \"v\" }\n"));
    assert!(report.contains("Description: quote \" here\n\n"));
    assert!(report.contains("Proof method: Exhaustive { domain_size: 16869913 }"));
    assert!(report.contains("Buffer: b (SIR NodeId 0, param 0)\nLength: len (SIR NodeId 1, param 1)\nValue: v (SIR NodeId 2, param 2)"));
    assert!(report.ends_with("OVERALL: PROVEN \u{2713}\n"));
    assert_eq!(result.lemmas[4].statement.matches("1 (vacuously true)").count(), 1);
}

#[test]
fn report_of_partial_and_failed_status() {
    let obligation = ProofObligation {
        name: "x".to_string(),
        description: "d".to_string(),
        specification: SemanticSpec::Sum { buf: "b".to_string(), n: "n".to_string() },
        parameters: vec![],
    };
    let mut result = CompositionalProver::new().prove(&obligation);
    result.lemmas[1].verified = false;
    result.status = ProofStatus::PartiallyProven(vec!["chunk_lemma".to_string(), "a\"b".to_string()]);
    let report = format_proof_report(&result);
    assert!(report.contains("\nLemma: chunk_lemma [\u{2717} FAILED]\n"));
    assert!(report.ends_with("OVERALL: PARTIALLY PROVEN (failed: [\"chunk_lemma\", \"a\\\"b\"])\n"));
    result.status = ProofStatus::Failed("boom".to_string());
    let report = format_proof_report(&result);
    assert!(report.ends_with("OVERALL: FAILED \u{2717} (boom)\n"));
}

#[test]
fn prove_keeps_obligation_and_orders_lemmas() {
    let obligation = ProofObligation {
        name: "n".to_string(),
        description: "d".to_string(),
        specification: SemanticSpec::Cardinality {
            buf: "b".to_string(),
            n: "n".to_string(),
            mask: "m".to_string(),
            target: "t".to_string(),
        },
        parameters: vec![Parameter { name: "b".to_string(), sir_node: 7, param_index: 3, description: "x".to_string() }],
    };
    let result = CompositionalProver::new().prove(&obligation);
    let names: Vec<&str> = result.lemmas.iter().map(|l| l.name.as_str()).collect();
    assert_eq!(names, vec!["per_byte_lemma", "chunk_lemma", "loop_invariant", "tail_lemma", "boundary_conditions", "region_binding"]);
    assert_eq!(result.obligation.name, "n");
    assert_eq!(result.obligation.parameters.len(), 1);
    assert_eq!(result.obligation.parameters[0].sir_node, 7);
    assert_eq!(result.obligation.specification, obligation.specification);
    assert!(result.lemmas[5].statement.contains("Mask: m (SIR NodeId 2, param 2)\nTarget: t (SIR NodeId 3, param 3)"));
}

#[test]
fn rendering_from_quoted_fields() {
    let spec = SemanticSpec::Sum { buf: "b".to_string(), n: "n".to_string() };
    let q = vec!["\"b\"".to_string(), "\"n\"".to_string()];
    assert_eq!(spec_text_from_quoted(&spec, &q), "Sum { buf: \"b\", n: \"n\" }");
    assert_eq!(list_text_from_quoted(&q), "[\"b\", \"n\"]");
    assert_eq!(list_text_from_quoted(&vec![]), "[]");
}
